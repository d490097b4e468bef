//! The node backend: block validation and application, genesis, block
//! production, transaction admission, and the read API, over any
//! [`Storage`] backend.

use vstd::prelude::*;

use crate::codec::{
    block_encodable, encode_receipt, encode_task, receipt_encodable, task_encodable, tx_encodable,
    txs_encodable,
};
use crate::crypto::{
    compute_block_hash, compute_transactions_root, compute_tx_hash, spec_block_hash,
    verify_receipt_signature,
};
use crate::mempool::{Mempool, PoolEntry};
use crate::model::{
    Account, Block, ComputeTask, Receipt, SpecBlock, SpecComputeTask, SpecPayload, Transaction,
    TransactionPayload, RECEIPT_VERSION,
};
use crate::primitives as p;
use crate::primitives::{Address, Duplicate, KeyEq};
use crate::rules::{
    ApplyBlockError, BindingViolation, BlockRun, PayloadKind, StorageFault, TaskRuleViolation,
    TypedPayload, binding_violation_error, decodes_to, decoded_task, block_outcome, check_receipt_binding,
    check_task_envelope, check_type_payload, closing_ops, engine_failed, has_canonical_fields,
    lookup, run_txs, spec_load_task, spec_type_payload, step_anchor, step_task, step_transfer,
    task_violation_error, tx_step, MAX_RECEIPT_METADATA_BYTES,
};
use crate::codec::decode_compute_task;
use crate::storage::{apply_op, apply_ops, ops_view, BatchOp, SpecBatchOp, Storage, StorageError, StoreView};
use crate::table::Table;
use crate::admission::{admission, binding_submit_error, envelope_submit_error, submit_engine_failed, SubmitError, MAX_PENDING_PER_SENDER};

verus! {

/// Every stored block can be encoded (and so hashed).
pub open spec fn blocks_encodable(st: StoreView) -> bool {
    forall|h: p::Hash| #[trigger] st.blocks.contains_key(h) ==> block_encodable(st.blocks[h])
}

/// No operation in `ops` stores a block.
pub open spec fn stores_no_block(ops: Seq<SpecBatchOp>) -> bool {
    forall|k: int| 0 <= k < ops.len() ==> !(#[trigger] ops[k] is PutBlock)
}

pub proof fn lemma_apply_ops_blocks(st: StoreView, ops: Seq<SpecBatchOp>)
    requires
        blocks_encodable(st),
        forall|k: int| 0 <= k < ops.len() ==> (#[trigger] ops[k] matches SpecBatchOp::PutBlock(_, b)
            ==> block_encodable(b)),
    ensures
        blocks_encodable(apply_ops(st, ops)),
    decreases ops.len(),
{
    if ops.len() > 0 {
        lemma_apply_ops_blocks(st, ops.drop_last());
        assert(ops.drop_last().len() == ops.len() - 1);
        let last = ops.last();
        assert(last == ops[ops.len() - 1]);
    }
}

/// The in-flight state of validating one block.
struct ExecRun {
    cache: Table<Address, Account>,
    seq: u64,
    anchored: Vec<[u8; 32]>,
    tasks: Table<[u8; 32], ComputeTask>,
    ops: Vec<BatchOp>,
}

impl ExecRun {
    closed spec fn view(&self) -> BlockRun {
        BlockRun {
            cache: self.cache.view(),
            seq: self.seq,
            anchored: self.anchored@,
            tasks: self.tasks.view(),
            ops: ops_view(self.ops@),
        }
    }
}

fn engine<T>(e: StorageError) -> (r: Result<T, ApplyBlockError>)
    ensures
        engine_failed(r),
{
    Err(ApplyBlockError::Storage(StorageFault::Engine(e)))
}

fn lookup_account<S: Storage>(storage: &S, run: &ExecRun, a: &Address) -> (r: Result<Option<Account>, StorageError>)
    ensures
        storage.reliable() ==> r is Ok,
        r matches Ok(o) ==> o == lookup(storage.state(), run.view(), *a),
{
    match run.cache.get(a) {
        Some(acc) => Ok(Some(*acc)),
        None => storage.get_account(a),
    }
}

fn contains_id(v: &Vec<[u8; 32]>, id: &[u8; 32]) -> (r: bool)
    ensures
        r == v@.contains(*id),
{
    let mut i: usize = 0;
    while i < v.len()
        invariant
            0 <= i <= v@.len(),
            forall|j: int| 0 <= j < i ==> v@[j] != *id,
        decreases v@.len() - i,
    {
        if v[i].key_eq(id) {
            return true;
        }
        i += 1;
    }
    false
}

/// Where a duplicate receipt task id was found.
pub enum DuplicateSource {
    /// Anchored in prior chain state.
    PriorState,
    /// Anchored earlier in the current block.
    CurrentBlock,
}

/// The union of prior chain state and the receipts anchored earlier in
/// the current block.
pub struct CompositeReceiptIndex<'a, S: Storage> {
    pub storage: &'a S,
    pub pending: &'a Vec<[u8; 32]>,
}

impl<'a, S: Storage> CompositeReceiptIndex<'a, S> {
    /// Locates a duplicate, prior state first.
    pub fn locate(&self, task_id: &[u8; 32]) -> (r: Result<Option<DuplicateSource>, StorageError>)
        ensures
            self.storage.reliable() ==> r is Ok,
            r matches Ok(o) ==> match o {
                Some(DuplicateSource::PriorState) => self.storage.state().receipts.contains_key(*task_id),
                Some(DuplicateSource::CurrentBlock) => !self.storage.state().receipts.contains_key(
                    *task_id,
                ) && self.pending@.contains(*task_id),
                None => !self.storage.state().receipts.contains_key(*task_id)
                    && !self.pending@.contains(*task_id),
            },
    {
        match self.storage.has_receipt(task_id) {
            Err(e) => Err(e),
            Ok(true) => Ok(Some(DuplicateSource::PriorState)),
            Ok(false) => {
                if contains_id(self.pending, task_id) {
                    Ok(Some(DuplicateSource::CurrentBlock))
                } else {
                    Ok(None)
                }
            },
        }
    }

    /// Whether the task id is anchored in either part.
    pub fn contains_task_id(&self, task_id: &[u8; 32]) -> (r: Result<bool, StorageError>)
        ensures
            self.storage.reliable() ==> r is Ok,
            r matches Ok(b) ==> b == (self.storage.state().receipts.contains_key(*task_id)
                || self.pending@.contains(*task_id)),
    {
        match self.locate(task_id) {
            Err(e) => Err(e),
            Ok(o) => Ok(o.is_some()),
        }
    }
}

/// Loads and decodes the task registered under `task_id` in prior state.
/// Bytes that do not decode are a storage fault, never an unknown task.
pub fn load_task<S: Storage>(storage: &S, task_id: &[u8; 32]) -> (r: Result<Option<ComputeTask>, StorageFault>)
    ensures
        storage.reliable() ==> !(r matches Err(StorageFault::Engine(_))),
        !(r matches Err(StorageFault::Engine(_))) ==> match spec_load_task(storage.state(), *task_id) {
            Ok(None) => r matches Ok(None),
            Ok(Some(t)) => r matches Ok(Some(t2)) && t2@ == t,
            Err(f) => r matches Err(f2) && f2 == f,
        },
{
    let bytes = match storage.get_task(task_id) {
        Err(e) => return Err(StorageFault::Engine(e)),
        Ok(None) => return Ok(None),
        Ok(Some(b)) => b,
    };
    match decode_compute_task(bytes.as_slice()) {
        Some(t) => {
            proof {
                let b = bytes@;
                assert(decodes_to(b, t@));
                let x = decoded_task(b);
                crate::codec::lemma_task_encoding_injective(x, t@, b);
                assert(storage.state().task(*task_id) == Some(b));
                let bb = storage.state().tasks[*task_id];
                assert(bb == b);
                assert(decodes_to(bb, t@));
                assert(exists|c: SpecComputeTask| decodes_to(bb, c));
                assert(decoded_task(bb) == t@);
                assert(spec_load_task(storage.state(), *task_id) == Ok::<Option<SpecComputeTask>, StorageFault>(Some(t@)));
            }
            Ok(Some(t))
        },
        None => {
            proof {
                let b = bytes@;
                assert forall|c: SpecComputeTask| !decodes_to(b, c) by {
                    if task_encodable(c) {
                        assert(!crate::codec::enc_task(c).is_prefix_of(b));
                    }
                }
                assert(spec_load_task(storage.state(), *task_id) == Err::<Option<SpecComputeTask>, StorageFault>(StorageFault::CorruptTask(*task_id)));
            }
            Err(StorageFault::CorruptTask(*task_id))
        },
    }
}

fn violation_error(v: TaskRuleViolation, i: usize) -> (r: ApplyBlockError)
    ensures
        r == task_violation_error(v, i),
{
    match v {
        TaskRuleViolation::Version => ApplyBlockError::TaskVersionUnsupported(i),
        TaskRuleViolation::SpecTooLarge => ApplyBlockError::ExecutionSpecTooLarge(i),
        TaskRuleViolation::SubmitterMismatch => ApplyBlockError::SenderSubmitterMismatch(i),
    }
}

fn binding_error(v: BindingViolation, i: usize) -> (r: ApplyBlockError)
    ensures
        r == binding_violation_error(v, i),
{
    match v {
        BindingViolation::TaskNotRegistered => ApplyBlockError::TaskNotRegistered(i),
        BindingViolation::InputCommitmentMismatch => ApplyBlockError::ReceiptInputCommitmentMismatch(i),
        BindingViolation::ExecutorNotAuthorised => ApplyBlockError::ReceiptExecutorNotAuthorised(i),
    }
}

fn apply_task_tx<S: Storage>(
    storage: &S,
    run: &mut ExecRun,
    i: usize,
    tx: &Transaction,
    task: &ComputeTask,
    h: p::Hash,
) -> (r: Result<(), ApplyBlockError>)
    requires
        tx_encodable(tx@),
        tx@.payload == SpecPayload::ComputeTask(task@),
        old(run).view().seq < u64::MAX,
    ensures
        storage.reliable() ==> !engine_failed(r),
        !engine_failed(r) ==> match step_task(storage.state(), old(run).view(), i, tx@, h, task@) {
            Ok(r2) => r is Ok && final(run).view() == r2,
            Err(e) => r == Err::<(), ApplyBlockError>(e),
        },
{
    let ghost st = storage.state();
    let ghost pre = run.view();
    let acc = match lookup_account(storage, run, &tx.sender) {
        Err(e) => return engine(e),
        Ok(None) => return Err(ApplyBlockError::SenderAccountMissing(i)),
        Ok(Some(a)) => a,
    };
    let mut acc2 = acc;
    if acc2.validate_and_increment_nonce(tx.nonce).is_err() {
        return Err(ApplyBlockError::InvalidNonce(i));
    }
    let id = match check_task_envelope(tx, task) {
        Err(v) => return Err(violation_error(v, i)),
        Ok(id) => id,
    };
    match storage.has_task(&id) {
        Err(e) => return engine(e),
        Ok(true) => return Err(ApplyBlockError::TaskAlreadyRegistered(i)),
        Ok(false) => {},
    }
    if run.tasks.contains_key(&id) {
        return Err(ApplyBlockError::TaskRepeatedInBlock(i));
    }
    let ghost ops0 = run.ops@;
    run.tasks.insert(id, task.duplicate());
    run.seq = run.seq + 1;
    let seq = run.seq;
    let bytes = encode_task(task);
    let op1 = BatchOp::PutTransaction(h, tx.duplicate());
    let op2 = BatchOp::PutTxSeqIndex(seq, h);
    let op3 = BatchOp::PutTask(id, bytes);
    let op4 = BatchOp::PutAccount(tx.sender, acc2);
    run.ops.push(op1);
    run.ops.push(op2);
    run.ops.push(op3);
    run.ops.push(op4);
    run.cache.insert(tx.sender, acc2);
    proof {
        assert(run.ops@ == ops0.push(op1).push(op2).push(op3).push(op4));
        assert(ops_view(run.ops@) =~= ops_view(ops0) + seq![op1@, op2@, op3@, op4@]);
    }
    Ok(())
}

fn apply_anchor_tx<S: Storage>(
    storage: &S,
    run: &mut ExecRun,
    i: usize,
    tx: &Transaction,
    receipt: &Receipt,
    h: p::Hash,
) -> (r: Result<(), ApplyBlockError>)
    requires
        tx_encodable(tx@),
        tx@.payload == SpecPayload::AnchorReceipt(receipt@),
        old(run).view().seq < u64::MAX,
    ensures
        storage.reliable() ==> !engine_failed(r),
        !engine_failed(r) ==> match step_anchor(storage.state(), old(run).view(), i, tx@, h, receipt@) {
            Ok(r2) => r is Ok && final(run).view() == r2,
            Err(e) => r == Err::<(), ApplyBlockError>(e),
        },
{
    let ghost st = storage.state();
    let acc = match lookup_account(storage, run, &tx.sender) {
        Err(e) => return engine(e),
        Ok(None) => return Err(ApplyBlockError::SenderAccountMissing(i)),
        Ok(Some(a)) => a,
    };
    let mut acc2 = acc;
    if acc2.validate_and_increment_nonce(tx.nonce).is_err() {
        return Err(ApplyBlockError::InvalidNonce(i));
    }
    if receipt.metadata.len() > MAX_RECEIPT_METADATA_BYTES {
        return Err(ApplyBlockError::ReceiptMetadataTooLarge(i));
    }
    if receipt.version != RECEIPT_VERSION {
        return Err(ApplyBlockError::ReceiptVersionUnsupported(i));
    }
    if !tx.sender.key_eq(&receipt.executor) {
        return Err(ApplyBlockError::SenderExecutorMismatch(i));
    }
    if !verify_receipt_signature(receipt) {
        return Err(ApplyBlockError::InvalidReceiptSignature(i));
    }
    let index = CompositeReceiptIndex { storage, pending: &run.anchored };
    match index.locate(&receipt.task_id) {
        Err(e) => return engine(e),
        Ok(Some(DuplicateSource::PriorState)) => return Err(ApplyBlockError::TaskIdAlreadyAnchored(i)),
        Ok(Some(DuplicateSource::CurrentBlock)) => return Err(ApplyBlockError::TaskIdRepeatedInBlock(i)),
        Ok(None) => {},
    }
    let stored = match load_task(storage, &receipt.task_id) {
        Err(f) => return Err(ApplyBlockError::Storage(f)),
        Ok(o) => o,
    };
    let binding = match &stored {
        Some(t) => check_receipt_binding(receipt, Some(t)),
        None => check_receipt_binding(receipt, run.tasks.get(&receipt.task_id)),
    };
    if let Err(v) = binding {
        return Err(binding_error(v, i));
    }
    let ghost ops0 = run.ops@;
    run.anchored.push(receipt.task_id);
    run.seq = run.seq + 1;
    let seq = run.seq;
    let bytes = encode_receipt(receipt);
    let op1 = BatchOp::PutTransaction(h, tx.duplicate());
    let op2 = BatchOp::PutTxSeqIndex(seq, h);
    let op3 = BatchOp::PutReceipt(receipt.task_id, bytes);
    let op4 = BatchOp::PutAccount(tx.sender, acc2);
    run.ops.push(op1);
    run.ops.push(op2);
    run.ops.push(op3);
    run.ops.push(op4);
    run.cache.insert(tx.sender, acc2);
    proof {
        assert(run.ops@ == ops0.push(op1).push(op2).push(op3).push(op4));
        assert(ops_view(run.ops@) =~= ops_view(ops0) + seq![op1@, op2@, op3@, op4@]);
    }
    Ok(())
}

fn apply_transfer_tx<S: Storage>(
    storage: &S,
    run: &mut ExecRun,
    i: usize,
    tx: &Transaction,
    h: p::Hash,
) -> (r: Result<(), ApplyBlockError>)
    requires
        tx_encodable(tx@),
        old(run).view().seq < u64::MAX,
    ensures
        storage.reliable() ==> !engine_failed(r),
        !engine_failed(r) ==> match step_transfer(storage.state(), old(run).view(), i, tx@, h) {
            Ok(r2) => r is Ok && final(run).view() == r2,
            Err(e) => r == Err::<(), ApplyBlockError>(e),
        },
{
    let acc = match lookup_account(storage, run, &tx.sender) {
        Err(e) => return engine(e),
        Ok(None) => return Err(ApplyBlockError::InsufficientBalance(i)),
        Ok(Some(a)) => a,
    };
    let mut sender = acc;
    if sender.validate_and_increment_nonce(tx.nonce).is_err() {
        return Err(ApplyBlockError::InvalidNonce(i));
    }
    let mut receiver = match lookup_account(storage, run, &tx.receiver) {
        Err(e) => return engine(e),
        Ok(None) => Account::new(tx.receiver),
        Ok(Some(a)) => a,
    };
    if Account::transfer(&mut sender, &mut receiver, tx.amount).is_err() {
        return Err(ApplyBlockError::InsufficientBalance(i));
    }
    let ghost ops0 = run.ops@;
    run.seq = run.seq + 1;
    let seq = run.seq;
    let op1 = BatchOp::PutTransaction(h, tx.duplicate());
    let op2 = BatchOp::PutTxSeqIndex(seq, h);
    let op3 = BatchOp::PutAccount(tx.sender, sender);
    let op4 = BatchOp::PutAccount(tx.receiver, receiver);
    run.ops.push(op1);
    run.ops.push(op2);
    run.ops.push(op3);
    run.ops.push(op4);
    run.cache.insert(tx.sender, sender);
    run.cache.insert(tx.receiver, receiver);
    proof {
        assert(run.ops@ == ops0.push(op1).push(op2).push(op3).push(op4));
        assert(ops_view(run.ops@) =~= ops_view(ops0) + seq![op1@, op2@, op3@, op4@]);
    }
    Ok(())
}

/// Validates the `i`-th transaction of a block against prior state and
/// what the block did before it, accumulating its effects.
fn apply_tx<S: Storage>(storage: &S, run: &mut ExecRun, i: usize, tx: &Transaction) -> (r: Result<(), ApplyBlockError>)
    requires
        tx_encodable(tx@),
        old(run).view().seq < u64::MAX,
    ensures
        storage.reliable() ==> !engine_failed(r),
        !engine_failed(r) ==> match tx_step(storage.state(), old(run).view(), i, tx@) {
            Ok(r2) => r is Ok && final(run).view() == r2,
            Err(e) => r == Err::<(), ApplyBlockError>(e),
        },
        r is Ok ==> final(run).view().seq <= old(run).view().seq + 1,
{
    let typed = match check_type_payload(tx) {
        Err(()) => return Err(ApplyBlockError::TypePayloadMismatch(i)),
        Ok(t) => t,
    };
    let canonical = has_canonical_fields(tx);
    match typed {
        TypedPayload::Anchor(_) => {
            if !canonical {
                return Err(ApplyBlockError::AnchorFieldConstraint(i));
            }
        },
        TypedPayload::Task(_) => {
            if !canonical {
                return Err(ApplyBlockError::TaskFieldConstraint(i));
            }
        },
        TypedPayload::Plain => {},
    }
    if !tx.verify_signature() {
        return Err(ApplyBlockError::InvalidSignature(i));
    }
    let h = compute_tx_hash(tx);
    let stored = match storage.get_transaction(&h) {
        Err(e) => return engine(e),
        Ok(o) => o.is_some(),
    };
    if stored {
        return match typed {
            TypedPayload::Anchor(_) => Err(ApplyBlockError::TaskIdAlreadyAnchored(i)),
            TypedPayload::Task(_) => Err(ApplyBlockError::TaskAlreadyRegistered(i)),
            TypedPayload::Plain => Ok(()),
        };
    }
    match typed {
        TypedPayload::Task(task) => apply_task_tx(storage, run, i, tx, task, h),
        TypedPayload::Anchor(receipt) => apply_anchor_tx(storage, run, i, tx, receipt, h),
        TypedPayload::Plain => apply_transfer_tx(storage, run, i, tx, h),
    }
}

/// Once validation has failed on a prefix of the transactions, the block's
/// verdict is that failure.
pub proof fn lemma_run_txs_error_sticks(st: StoreView, txs: Seq<crate::model::SpecTransaction>, n: int)
    requires
        0 <= n <= txs.len(),
        run_txs(st, txs.take(n)) is Err,
    ensures
        run_txs(st, txs) == run_txs(st, txs.take(n)),
    decreases txs.len() - n,
{
    if n < txs.len() {
        assert(txs.take(n + 1).drop_last() =~= txs.take(n));
        lemma_run_txs_error_sticks(st, txs, n + 1);
    } else {
        assert(txs.take(n) =~= txs);
    }
}

/// Validation writes no block of its own.
pub proof fn lemma_run_txs_stores_no_block(st: StoreView, txs: Seq<crate::model::SpecTransaction>)
    requires
        run_txs(st, txs) is Ok,
    ensures
        stores_no_block(run_txs(st, txs)->Ok_0.ops),
    decreases txs.len(),
{
    if txs.len() > 0 {
        lemma_run_txs_stores_no_block(st, txs.drop_last());
    }
}

/// Maximum transactions per produced block.
pub const MAX_TX_PER_BLOCK: usize = 1000;

/// Balance of the development account funded at genesis.
pub const DEV_BALANCE: u128 = 1_000_000_000;

/// Errors of the node's block and query operations.
#[derive(Debug, PartialEq, Eq)]
pub enum BackendError {
    /// The storage engine failed.
    Storage(StorageError),
    /// Block production was asked of a node that does not produce.
    NotProducer,
    /// No genesis block is stored.
    GenesisRequired,
    /// The block at the chain tip is not stored.
    ParentBlockNotFound,
    /// No block is stored at this height.
    BlockNotFound(u64),
    /// The produced block was rejected.
    Apply(ApplyBlockError),
}

/// Whether a node operation failed in the storage engine itself.
pub open spec fn backend_engine_failed<T>(r: Result<T, BackendError>) -> bool {
    ||| r matches Err(BackendError::Storage(_))
    ||| r matches Err(BackendError::Apply(ApplyBlockError::Storage(StorageFault::Engine(_))))
}

/// The genesis block: height 0, zero parent, empty body, timestamp 0.
pub open spec fn genesis_block() -> SpecBlock {
    SpecBlock {
        header: crate::model::BlockHeader {
            parent_hash: p::Hash::spec_zero(),
            state_root: p::Hash::spec_zero(),
            transactions_root: crate::crypto::spec_transactions_root(Seq::empty()),
            timestamp: 0,
            height: 0,
        },
        transactions: Seq::empty(),
    }
}

/// The state after genesis is ensured: unchanged when a block is indexed
/// at height 0; otherwise the genesis block stored and indexed, and the
/// development account funded unless it exists.
pub open spec fn genesis_state(st: StoreView) -> StoreView {
    if st.block_at(0) is Some {
        st
    } else {
        let gh = spec_block_hash(genesis_block());
        let s1 = apply_op(
            apply_op(st, SpecBatchOp::PutBlock(gh, genesis_block())),
            SpecBatchOp::PutBlockHeightIndex(0, gh),
        );
        let dev = crate::crypto::spec_dev_address();
        if s1.accounts.contains_key(dev) {
            s1
        } else {
            apply_op(s1, SpecBatchOp::PutAccount(dev, Account { address: dev, balance: DEV_BALANCE, nonce: 0 }))
        }
    }
}

/// Ensuring genesis on a store with no block at height 0 indexes at
/// height 0 a block stored under its own hash, with a zero parent, no
/// transactions, timestamp 0, and a header that commits to its (empty)
/// body: its transactions root is the digest of the encoded empty list,
/// the single byte 0. A store that already has a block at height 0 is
/// left as it is.
pub proof fn law_genesis_block(st: StoreView)
    ensures
        st.block_at(0) is Some ==> genesis_state(st) == st,
        st.block_at(0) is None ==> {
            let g = genesis_state(st).block_at(0)->Some_0;
            &&& genesis_state(st).block_at(0) is Some
            &&& genesis_state(st).height_index[0] == spec_block_hash(g)
            &&& g.header.height == 0
            &&& g.header.parent_hash == p::Hash::spec_zero()
            &&& g.header.timestamp == 0
            &&& g.transactions.len() == 0
            &&& g.header.transactions_root == crate::crypto::spec_transactions_root(g.transactions)
            &&& g.header.transactions_root == p::Hash(crate::crypto::blake3_of(seq![0u8]))
        },
{
    if st.block_at(0) is None {
        let e = Seq::<crate::model::SpecTransaction>::empty();
        assert(crate::codec::enc_txs(e) =~= seq![0u8]);
        let gs = genesis_state(st);
        let gh = spec_block_hash(genesis_block());
        assert(gs.height_index[0] == gh);
        assert(gs.blocks[gh] == genesis_block());
    }
}

/// The pending entries a produced block takes: the oldest, at most
/// [`MAX_TX_PER_BLOCK`].
pub open spec fn selected(v: Seq<PoolEntry>) -> Seq<PoolEntry> {
    v.take(if v.len() < MAX_TX_PER_BLOCK { v.len() as int } else { MAX_TX_PER_BLOCK as int })
}

/// The block a producer builds on `parent_hash` from the selected entries.
pub open spec fn produced_block(parent_hash: p::Hash, height: u64, timestamp: u64, sel: Seq<PoolEntry>) -> SpecBlock {
    let txs = Seq::new(sel.len(), |i: int| sel[i].1);
    SpecBlock {
        header: crate::model::BlockHeader {
            parent_hash,
            state_root: p::Hash::spec_zero(),
            transactions_root: crate::crypto::spec_transactions_root(txs),
            timestamp,
            height,
        },
        transactions: txs,
    }
}

/// The verdict of block production: the new block's hash and the block,
/// or why none was produced.
pub open spec fn produce_outcome(st: StoreView, v: Seq<PoolEntry>, producer: bool, timestamp: u64) -> Result<(p::Hash, SpecBlock), BackendError> {
    if !producer {
        Err(BackendError::NotProducer)
    } else if st.block_at(0) is None {
        Err(BackendError::GenesisRequired)
    } else {
        match st.block_at(st.latest_height) {
            None => Err(BackendError::ParentBlockNotFound),
            Some(parent) => {
                let blk = produced_block(
                    spec_block_hash(parent),
                    (st.latest_height + 1) as u64,
                    timestamp,
                    selected(v),
                );
                match block_outcome(st, blk) {
                    Err(e) => Err(BackendError::Apply(e)),
                    Ok((h, _)) => Ok((h, blk)),
                }
            },
        }
    }
}

/// A produced block is stamped with the timestamp production was given,
/// sits one above the tip on the tip block's hash, carries the oldest
/// pending transactions in pool order with a header that commits to
/// them, and is reported under its own hash.
pub proof fn law_produced_block(st: StoreView, v: Seq<PoolEntry>, producer: bool, timestamp: u64)
    ensures
        produce_outcome(st, v, producer, timestamp) matches Ok((h, b)) ==> {
            &&& b.header.timestamp == timestamp
            &&& b.header.height == (st.latest_height + 1) as u64
            &&& st.block_at(st.latest_height) is Some
            &&& b.header.parent_hash == spec_block_hash(st.block_at(st.latest_height)->Some_0)
            &&& b.transactions.len() == selected(v).len()
            &&& forall|i: int| 0 <= i < b.transactions.len() ==> #[trigger] b.transactions[i] == v[i].1
            &&& b.header.transactions_root == crate::crypto::spec_transactions_root(b.transactions)
            &&& h == spec_block_hash(b)
        },
{
    if produce_outcome(st, v, producer, timestamp) is Ok {
        let parent = st.block_at(st.latest_height)->Some_0;
        let blk = produced_block(spec_block_hash(parent), (st.latest_height + 1) as u64, timestamp, selected(v));
        assert(block_outcome(st, blk) is Ok);
        assert(block_outcome(st, blk)->Ok_0.0 == spec_block_hash(blk));
        assert forall|i: int| 0 <= i < blk.transactions.len() implies #[trigger] blk.transactions[i] == v[i].1 by {
            assert(selected(v)[i] == v[i]);
        }
    }
}

/// Production fails, or not, the same way at every timestamp: the
/// timestamp enters the block hash and nothing the rules check.
proof fn lemma_produce_failure_timeless(st: StoreView, v: Seq<PoolEntry>, producer: bool, t1: u64, t2: u64)
    ensures
        produce_outcome(st, v, producer, t1) is Err ==> produce_outcome(st, v, producer, t1) == produce_outcome(
            st,
            v,
            producer,
            t2,
        ),
{
}

/// The hashes of a list of pending entries.
pub open spec fn entry_hashes(v: Seq<PoolEntry>) -> Seq<p::Hash> {
    Seq::new(v.len(), |i: int| v[i].0)
}

/// Calls `std::time::SystemTime::now` and reads the seconds since the Unix
/// epoch (0 for a clock set before it). Nothing is claimed of the result:
/// it depends on the clock.
#[verifier::external_body]
pub(crate) fn now_secs() -> u64 {
    std::time::SystemTime::now().duration_since(std::time::UNIX_EPOCH).map(|d| d.as_secs()).unwrap_or(0)
}

/// A node: its storage, its pending-transaction pool, and whether it
/// produces blocks.
pub struct NodeBackend<S: Storage> {
    pub storage: S,
    pub mempool: Mempool,
    pub is_producer: bool,
}

impl<S: Storage> NodeBackend<S> {
    /// What the node's storage holds.
    pub closed spec fn store(&self) -> StoreView {
        self.storage.state()
    }

    /// Whether the node's storage never fails.
    pub closed spec fn reliable(&self) -> bool {
        self.storage.reliable()
    }

    /// The pending transactions.
    pub closed spec fn pool(&self) -> Seq<PoolEntry> {
        self.mempool.view()
    }

    /// Whether the node produces blocks.
    pub closed spec fn producer(&self) -> bool {
        self.is_producer
    }

    /// The node's invariant.
    pub open spec fn wf(&self) -> bool {
        &&& crate::mempool::pool_wf(self.pool())
        &&& blocks_encodable(self.store())
    }

    /// A node over `storage` with an empty pool.
    pub fn new(storage: S, is_producer: bool) -> (r: Self)
        requires
            blocks_encodable(storage.state()),
        ensures
            r.wf(),
            r.store() == storage.state(),
            r.reliable() == storage.reliable(),
            r.pool() == Seq::<PoolEntry>::empty(),
            r.producer() == is_producer,
    {
        NodeBackend { storage, mempool: Mempool::new(), is_producer }
    }

    /// Read access to the node's storage.
    pub fn storage(&self) -> (r: &S)
        ensures
            r.state() == self.store(),
            r.reliable() == self.reliable(),
    {
        &self.storage
    }

    /// Read access to the node's pool.
    pub fn mempool(&self) -> (r: &Mempool)
        ensures
            r.view() == self.pool(),
    {
        &self.mempool
    }

    /// The current chain tip height.
    pub fn latest_height(&self) -> (r: Result<u64, StorageError>)
        ensures
            self.reliable() ==> r is Ok,
            r matches Ok(h) ==> h == self.store().latest_height,
    {
        self.storage.get_latest_height()
    }

    /// Validates `block` against the chain tip and, when every rule holds,
    /// writes it and all its effects in one atomic batch. A rejected block
    /// changes nothing.
    pub fn apply_block(&mut self, block: &Block) -> (r: Result<p::Hash, ApplyBlockError>)
        requires
            old(self).wf(),
            block_encodable(block@),
            old(self).store().latest_height < u64::MAX,
            old(self).store().last_included_tx_seq + block@.transactions.len() <= u64::MAX,
        ensures
            final(self).wf(),
            final(self).pool() == old(self).pool(),
            final(self).producer() == old(self).producer(),
            final(self).reliable() == old(self).reliable(),
            old(self).reliable() ==> !engine_failed(r),
            !engine_failed(r) ==> match block_outcome(old(self).store(), block@) {
                Ok((h, ops)) => r == Ok::<p::Hash, ApplyBlockError>(h) && final(self).store()
                    == apply_ops(old(self).store(), ops),
                Err(e) => r == Err::<p::Hash, ApplyBlockError>(e) && final(self).store() == old(
                    self,
                ).store(),
            },
            r is Err ==> final(self).store() == old(self).store(),
    {
        let ghost st = self.storage.state();
        let ghost b = block@;
        let cur = match self.storage.get_latest_height() {
            Err(e) => return engine(e),
            Ok(h) => h,
        };
        let expected = cur + 1;
        if block.header.height != expected {
            return Err(ApplyBlockError::BadHeight { expected, got: block.header.height });
        }
        let parent = match self.storage.get_block_by_height(cur) {
            Err(e) => return engine(e),
            Ok(None) => return Err(ApplyBlockError::Storage(StorageFault::ParentBlockMissing)),
            Ok(Some(pb)) => pb,
        };
        proof {
            assert(st.blocks.contains_key(st.height_index[cur]));
        }
        let parent_hash = compute_block_hash(&parent);
        if !block.header.parent_hash.key_eq(&parent_hash) {
            return Err(ApplyBlockError::BadParent { expected: parent_hash, got: block.header.parent_hash });
        }
        let root = compute_transactions_root(&block.body.transactions);
        if !block.header.transactions_root.key_eq(&root) {
            return Err(ApplyBlockError::TransactionsRootMismatch);
        }
        let last = match self.storage.get_last_included_tx_seq() {
            Err(e) => return engine(e),
            Ok(n) => n,
        };
        let mut run = ExecRun {
            cache: Table::new(),
            seq: last,
            anchored: Vec::new(),
            tasks: Table::new(),
            ops: Vec::new(),
        };
        proof {
            assert(run.view().anchored =~= Seq::<[u8; 32]>::empty());
            assert(run.view().ops =~= Seq::<SpecBatchOp>::empty());
            assert(run.view() == BlockRun::start(st));
            assert(b.transactions.take(0) =~= Seq::<crate::model::SpecTransaction>::empty());
        }
        let txs = &block.body.transactions;
        let mut i: usize = 0;
        while i < txs.len()
            invariant
                0 <= i <= txs@.len(),
                st == self.storage.state(),
                st == old(self).store(),
                self.pool() == old(self).pool(),
                self.producer() == old(self).producer(),
                self.reliable() == old(self).reliable(),
                crate::mempool::pool_wf(self.pool()),
                blocks_encodable(st),
                st.latest_height == cur,
                b.header.height == (cur + 1) as u64,
                st.block_at(cur) == Some(parent@),
                b.header.parent_hash == spec_block_hash(parent@),
                b.header.transactions_root == crate::crypto::spec_transactions_root(b.transactions),
                b == block@,
                *txs == block.body.transactions,
                txs_encodable(b.transactions),
                st.last_included_tx_seq + b.transactions.len() <= u64::MAX,
                run.view().seq <= st.last_included_tx_seq + i,
                run_txs(st, b.transactions.take(i as int)) == Ok::<BlockRun, ApplyBlockError>(run.view()),
            decreases txs@.len() - i,
        {
            assert(tx_encodable(b.transactions[i as int]));
            let ghost pre = run.view();
            let res = apply_tx(&self.storage, &mut run, i, &txs[i]);
            proof {
                assert(b.transactions.take(i + 1).drop_last() =~= b.transactions.take(i as int));
                assert(b.transactions.take(i + 1).last() == txs@[i as int]@);
            }
            match res {
                Err(e) => {
                    proof {
                        if !engine_failed(Err::<(), ApplyBlockError>(e)) {
                            lemma_run_txs_error_sticks(st, b.transactions, i + 1);
                        }
                    }
                    return Err(e);
                },
                Ok(()) => {},
            }
            i += 1;
        }
        proof {
            assert(b.transactions.take(txs@.len() as int) =~= b.transactions);
            lemma_run_txs_stores_no_block(st, b.transactions);
        }
        let bh = compute_block_hash(block);
        let ghost ops0 = run.ops@;
        if txs.len() > 0 {
            run.ops.push(BatchOp::SetTxSeq(run.seq));
            run.ops.push(BatchOp::SetLastIncludedTxSeq(run.seq));
        }
        run.ops.push(BatchOp::PutBlock(bh, block.duplicate()));
        run.ops.push(BatchOp::PutBlockHeightIndex(block.header.height, bh));
        let ghost all = ops_view(run.ops@);
        proof {
            assert(all =~= ops_view(ops0) + closing_ops(b, run.seq, bh));
            assert forall|k: int| 0 <= k < all.len() implies (#[trigger] all[k] matches SpecBatchOp::PutBlock(_, x)
                ==> block_encodable(x)) by {
                if k < ops0.len() {
                    assert(all[k] == ops_view(ops0)[k]);
                }
            }
            lemma_apply_ops_blocks(st, all);
        }
        match self.storage.write_batch(run.ops) {
            Err(e) => engine(e),
            Ok(()) => Ok(bh),
        }
    }

    /// Writes the genesis block (height 0) and funds the development
    /// account, unless a block is already indexed at height 0.
    pub fn ensure_genesis(&mut self) -> (r: Result<(), StorageError>)
        requires
            old(self).wf(),
        ensures
            final(self).wf(),
            final(self).pool() == old(self).pool(),
            final(self).producer() == old(self).producer(),
            final(self).reliable() == old(self).reliable(),
            old(self).reliable() ==> r is Ok,
            r is Ok ==> final(self).store() == genesis_state(old(self).store()),
    {
        let ghost st = self.storage.state();
        match self.storage.get_block_by_height(0) {
            Err(e) => return Err(e),
            Ok(Some(_)) => return Ok(()),
            Ok(None) => {},
        }
        let txs: Vec<Transaction> = Vec::new();
        proof {
            assert(crate::model::txs_view(txs@) =~= Seq::<crate::model::SpecTransaction>::empty());
        }
        let root = compute_transactions_root(&txs);
        let block = Block {
            header: crate::model::BlockHeader {
                parent_hash: p::Hash::zero(),
                state_root: p::Hash::zero(),
                transactions_root: root,
                timestamp: 0,
                height: 0,
            },
            body: crate::model::BlockBody { transactions: txs },
        };
        proof {
            assert(block@.transactions =~= Seq::<crate::model::SpecTransaction>::empty());
            assert(block@ == genesis_block());
        }
        let block_hash = compute_block_hash(&block);
        if let Err(e) = self.storage.put_block(&block_hash, &block) {
            return Err(e);
        }
        if let Err(e) = self.storage.put_block_height_index(0, block_hash) {
            return Err(e);
        }
        let dev = crate::crypto::dev_address();
        let existing = match self.storage.get_account(&dev) {
            Err(e) => return Err(e),
            Ok(o) => o,
        };
        if existing.is_none() {
            let mut dev_account = Account::new(dev);
            dev_account.balance = DEV_BALANCE;
            if let Err(e) = self.storage.put_account(&dev, &dev_account) {
                return Err(e);
            }
        }
        Ok(())
    }

    /// Handles a block announced by a peer: ignored unless it is exactly
    /// one above the local tip, otherwise applied as [`Self::apply_block`]
    /// applies it.
    pub fn handle_incoming_block(&mut self, block: Block) -> (r: IncomingBlock)
        requires
            old(self).wf(),
            block_encodable(block@),
            old(self).store().latest_height < u64::MAX,
            old(self).store().last_included_tx_seq + block@.transactions.len() <= u64::MAX,
        ensures
            final(self).wf(),
            final(self).pool() == old(self).pool(),
            final(self).producer() == old(self).producer(),
            final(self).reliable() == old(self).reliable(),
            old(self).reliable() ==> !(r is HeightUnavailable) && !(r matches IncomingBlock::Rejected(e)
                && engine_failed(Err::<p::Hash, ApplyBlockError>(e))),
            match r {
                IncomingBlock::HeightUnavailable(_) => !old(self).reliable() && final(self).store()
                    == old(self).store(),
                IncomingBlock::Ignored { local_height } => local_height == old(self).store().latest_height
                    && block@.header.height != local_height + 1 && final(self).store() == old(self).store(),
                IncomingBlock::Applied(h) => {
                    &&& block@.header.height == old(self).store().latest_height + 1
                    &&& block_outcome(old(self).store(), block@) matches Ok((h2, ops))
                    &&& h == h2
                    &&& final(self).store() == apply_ops(old(self).store(), ops)
                },
                IncomingBlock::Rejected(e) => block@.header.height == old(self).store().latest_height + 1
                    && final(self).store() == old(self).store() && (!engine_failed(
                    Err::<p::Hash, ApplyBlockError>(e),
                ) ==> block_outcome(old(self).store(), block@) == Err::<(p::Hash, Seq<SpecBatchOp>), ApplyBlockError>(e)),
            },
    {
        let local_height = match self.storage.get_latest_height() {
            Ok(h) => h,
            Err(e) => return IncomingBlock::HeightUnavailable(e),
        };
        if block.header.height != local_height + 1 {
            return IncomingBlock::Ignored { local_height };
        }
        match self.apply_block(&block) {
            Ok(h) => IncomingBlock::Applied(h),
            Err(e) => IncomingBlock::Rejected(e),
        }
    }

    /// Builds a block on the chain tip from the oldest pending
    /// transactions, stamped `timestamp`, applies it, and only then drops
    /// its transactions from the pool. When application fails, nothing
    /// changes.
    pub fn produce_block_at(&mut self, timestamp: u64) -> (r: Result<(p::Hash, Block), BackendError>)
        requires
            old(self).wf(),
            old(self).store().latest_height < u64::MAX,
            old(self).store().last_included_tx_seq + MAX_TX_PER_BLOCK <= u64::MAX,
        ensures
            final(self).wf(),
            final(self).producer() == old(self).producer(),
            final(self).reliable() == old(self).reliable(),
            old(self).reliable() ==> !backend_engine_failed(r),
            !backend_engine_failed(r) ==> match produce_outcome(
                old(self).store(),
                old(self).pool(),
                old(self).producer(),
                timestamp,
            ) {
                Ok((h, b)) => {
                    &&& r matches Ok((h2, b2))
                    &&& h2 == h
                    &&& b2@ == b
                    &&& final(self).store() == apply_ops(
                        old(self).store(),
                        block_outcome(old(self).store(), b)->Ok_0.1,
                    )
                    &&& final(self).pool() == crate::mempool::without_hashes(
                        old(self).pool(),
                        entry_hashes(selected(old(self).pool())),
                    )
                },
                Err(e) => r == Err::<(p::Hash, Block), BackendError>(e),
            },
            r is Err ==> final(self).store() == old(self).store() && final(self).pool() == old(
                self,
            ).pool(),
    {
        let ghost st = self.storage.state();
        let ghost v = self.mempool.view();
        if !self.is_producer {
            return Err(BackendError::NotProducer);
        }
        match self.storage.get_block_by_height(0) {
            Err(e) => return Err(BackendError::Storage(e)),
            Ok(None) => return Err(BackendError::GenesisRequired),
            Ok(Some(_)) => {},
        }
        let current_height = match self.storage.get_latest_height() {
            Err(e) => return Err(BackendError::Storage(e)),
            Ok(h) => h,
        };
        let parent = match self.storage.get_block_by_height(current_height) {
            Err(e) => return Err(BackendError::Storage(e)),
            Ok(None) => return Err(BackendError::ParentBlockNotFound),
            Ok(Some(b)) => b,
        };
        proof {
            assert(st.blocks.contains_key(st.height_index[current_height]));
        }
        let parent_hash = compute_block_hash(&parent);
        let new_height = current_height + 1;
        let picked = self.mempool.peek_for_block(MAX_TX_PER_BLOCK);
        let ghost sel = selected(v);
        let mut txs: Vec<Transaction> = Vec::new();
        let mut hashes: Vec<p::Hash> = Vec::new();
        let mut i: usize = 0;
        while i < picked.len()
            invariant
                0 <= i <= picked@.len(),
                crate::mempool::entries_view(picked@) == sel,
                crate::model::txs_view(txs@) == Seq::new(i as nat, |k: int| sel[k].1),
                hashes@ == Seq::new(i as nat, |k: int| sel[k].0),
            decreases picked@.len() - i,
        {
            let ghost pre_t = txs@;
            let ghost pre_h = hashes@;
            let t = picked[i].1.duplicate();
            txs.push(t);
            hashes.push(picked[i].0);
            proof {
                assert(crate::model::txs_view(pre_t).len() == pre_t.len());
                assert(pre_t.len() == i);
                assert(txs@ == pre_t.push(t));
                assert(crate::mempool::entries_view(picked@)[i as int] == sel[i as int]);
                assert(t@ == sel[i as int].1);
                assert forall|k: int| 0 <= k < i + 1 implies crate::model::txs_view(txs@)[k] == sel[k].1 by {
                    if k < i {
                        assert(crate::model::txs_view(pre_t)[k] == sel[k].1);
                        assert(txs@[k] == pre_t[k]);
                    }
                }
                assert(crate::model::txs_view(txs@) =~= Seq::new(i as nat + 1, |k: int| sel[k].1));
                assert(hashes@ =~= Seq::new(i as nat + 1, |k: int| sel[k].0));
            }
            i += 1;
        }
        proof {
            assert(crate::model::txs_view(txs@) =~= Seq::new(sel.len(), |k: int| sel[k].1));
            assert(hashes@ =~= entry_hashes(sel));
            assert forall|k: int| 0 <= k < sel.len() implies crate::codec::tx_encodable(#[trigger] sel[k].1) by {
                assert(sel[k] == v[k]);
            }
        }
        let root = compute_transactions_root(&txs);
        let block = Block {
            header: crate::model::BlockHeader {
                parent_hash,
                state_root: p::Hash::zero(),
                transactions_root: root,
                timestamp,
                height: new_height,
            },
            body: crate::model::BlockBody { transactions: txs },
        };
        proof {
            assert(block@ == produced_block(parent_hash, new_height, timestamp, sel));
        }
        let block_hash = match self.apply_block(&block) {
            Err(e) => return Err(BackendError::Apply(e)),
            Ok(h) => h,
        };
        self.mempool.remove_included(hashes.as_slice());
        Ok((block_hash, block))
    }

    /// Produces a block stamped with the current time. Whether production
    /// fails, and why, does not depend on the time.
    pub fn produce_block(&mut self) -> (r: Result<(p::Hash, Block), BackendError>)
        requires
            old(self).wf(),
            old(self).store().latest_height < u64::MAX,
            old(self).store().last_included_tx_seq + MAX_TX_PER_BLOCK <= u64::MAX,
        ensures
            final(self).wf(),
            final(self).producer() == old(self).producer(),
            final(self).reliable() == old(self).reliable(),
            old(self).reliable() ==> !backend_engine_failed(r),
            r is Err ==> final(self).store() == old(self).store() && final(self).pool() == old(
                self,
            ).pool(),
            r matches Ok((h, b)) ==> {
                &&& produce_outcome(old(self).store(), old(self).pool(), old(self).producer(), b@.header.timestamp)
                    == Ok::<(p::Hash, SpecBlock), BackendError>((h, b@))
                &&& final(self).store() == apply_ops(old(self).store(), block_outcome(old(self).store(), b@)->Ok_0.1)
                &&& final(self).pool() == crate::mempool::without_hashes(
                    old(self).pool(),
                    entry_hashes(selected(old(self).pool())),
                )
            },
            !backend_engine_failed(r) ==> (r matches Err(e) ==> forall|t: u64|
                #[trigger] produce_outcome(old(self).store(), old(self).pool(), old(self).producer(), t)
                    == Err::<(p::Hash, SpecBlock), BackendError>(e)),
    {
        let ghost st = self.store();
        let ghost v = self.pool();
        let ghost producer = self.producer();
        let timestamp = now_secs();
        let r = self.produce_block_at(timestamp);
        proof {
            if !backend_engine_failed(r) && r is Err {
                assert forall|t: u64| #[trigger] produce_outcome(st, v, producer, t) == produce_outcome(
                    st,
                    v,
                    producer,
                    timestamp,
                ) by {
                    lemma_produce_failure_timeless(st, v, producer, t, timestamp);
                }
            }
        }
        r
    }
}

impl<S: Storage> NodeBackend<S> {
    /// Admits a submitted transaction into the pool after the checks a
    /// block would apply, in the same order, read against committed state
    /// and the pending chain of its sender. Storage is never written.
    pub fn submit_transaction(&mut self, tx: Transaction) -> (r: Result<p::Hash, SubmitError>)
        requires
            old(self).wf(),
            tx_encodable(tx@),
        ensures
            final(self).wf(),
            final(self).store() == old(self).store(),
            final(self).producer() == old(self).producer(),
            final(self).reliable() == old(self).reliable(),
            old(self).reliable() ==> !submit_engine_failed(r),
            !submit_engine_failed(r) ==> match admission(old(self).store(), old(self).pool(), tx@) {
                Ok((h, joined)) => r == Ok::<p::Hash, SubmitError>(h) && final(self).pool() == (if joined {
                    old(self).pool().push((h, tx@))
                } else {
                    old(self).pool()
                }),
                Err(e) => r == Err::<p::Hash, SubmitError>(e) && final(self).pool() == old(self).pool(),
            },
            r is Err ==> final(self).pool() == old(self).pool(),
    {
        let ghost st = self.storage.state();
        let ghost v = self.mempool.view();
        let ghost kind = spec_type_payload(tx@)->0;
        let (is_anchor, is_task) = match check_type_payload(&tx) {
            Err(()) => return Err(SubmitError::PayloadMismatch),
            Ok(TypedPayload::Anchor(_)) => (true, false),
            Ok(TypedPayload::Task(_)) => (false, true),
            Ok(TypedPayload::Plain) => (false, false),
        };
        let canonical = has_canonical_fields(&tx);
        if is_anchor && !canonical {
            return Err(SubmitError::AnchorFieldConstraint);
        }
        if is_task && !canonical {
            return Err(SubmitError::TaskFieldConstraint);
        }
        let h = compute_tx_hash(&tx);
        match self.storage.get_transaction(&h) {
            Err(e) => return Err(SubmitError::Storage(StorageFault::Engine(e))),
            Ok(Some(_)) => {
                if is_anchor {
                    return Err(SubmitError::TaskIdAlreadyAnchored);
                }
                if is_task {
                    return Err(SubmitError::TaskAlreadyRegistered);
                }
                return Ok(h);
            },
            Ok(None) => {},
        }
        if !tx.verify_signature() {
            return Err(SubmitError::InvalidSignature);
        }
        if self.mempool.contains_hash(&h) {
            return Ok(h);
        }
        let sender = match self.storage.get_account(&tx.sender) {
            Err(e) => return Err(SubmitError::Storage(StorageFault::Engine(e))),
            Ok(None) => return Err(SubmitError::InsufficientBalance),
            Ok(Some(a)) => a,
        };
        let pending = self.mempool.sender_pending(&tx.sender, sender.nonce);
        let expected_nonce = match pending.expected_nonce {
            None => return Err(SubmitError::NonceExhausted),
            Some(n) => n,
        };
        if tx.nonce != expected_nonce {
            return Err(SubmitError::InvalidNonce { expected: expected_nonce });
        }
        if pending.pending_debit > u128::MAX - tx.amount || sender.balance < pending.pending_debit + tx.amount {
            return Err(SubmitError::InsufficientBalance);
        }
        if pending.len >= MAX_PENDING_PER_SENDER {
            return Err(SubmitError::TooManyPending);
        }
        proof {
            crate::mempool::lemma_chain_end_free(v, tx@.sender, sender.nonce as int);
        }
        match &tx.payload {
            TransactionPayload::AnchorReceipt(receipt) => {
                if receipt.metadata.len() > MAX_RECEIPT_METADATA_BYTES {
                    return Err(SubmitError::ReceiptMetadataTooLarge);
                }
                if receipt.version != RECEIPT_VERSION {
                    return Err(SubmitError::ReceiptVersionUnsupported);
                }
                if !tx.sender.key_eq(&receipt.executor) {
                    return Err(SubmitError::SenderExecutorMismatch);
                }
                if !verify_receipt_signature(receipt) {
                    return Err(SubmitError::InvalidReceiptSignature);
                }
                match self.storage.has_receipt(&receipt.task_id) {
                    Err(e) => return Err(SubmitError::Storage(StorageFault::Engine(e))),
                    Ok(true) => return Err(SubmitError::TaskIdAlreadyAnchored),
                    Ok(false) => {},
                }
                let stored = match load_task(&self.storage, &receipt.task_id) {
                    Err(f) => return Err(SubmitError::Storage(f)),
                    Ok(o) => o,
                };
                let registered = match stored {
                    Some(t) => Some(t),
                    None => self.mempool.pending_compute_task(&receipt.task_id),
                };
                let binding = match &registered {
                    Some(t) => check_receipt_binding(receipt, Some(t)),
                    None => check_receipt_binding(receipt, None),
                };
                match binding {
                    Err(BindingViolation::TaskNotRegistered) => return Err(SubmitError::TaskNotRegistered),
                    Err(BindingViolation::InputCommitmentMismatch) => return Err(
                        SubmitError::ReceiptInputCommitmentMismatch,
                    ),
                    Err(BindingViolation::ExecutorNotAuthorised) => return Err(
                        SubmitError::ReceiptExecutorNotAuthorised,
                    ),
                    Ok(()) => {},
                }
                if self.mempool.contains_task_id(&receipt.task_id) {
                    return Err(SubmitError::TaskIdPending);
                }
            },
            TransactionPayload::ComputeTask(task) => {
                let id = match check_task_envelope(&tx, task) {
                    Err(TaskRuleViolation::Version) => return Err(SubmitError::TaskVersionUnsupported),
                    Err(TaskRuleViolation::SpecTooLarge) => return Err(SubmitError::ExecutionSpecTooLarge),
                    Err(TaskRuleViolation::SubmitterMismatch) => return Err(
                        SubmitError::SenderSubmitterMismatch,
                    ),
                    Ok(id) => id,
                };
                match self.storage.has_task(&id) {
                    Err(e) => return Err(SubmitError::Storage(StorageFault::Engine(e))),
                    Ok(true) => return Err(SubmitError::TaskAlreadyRegistered),
                    Ok(false) => {},
                }
                if self.mempool.contains_compute_task_id(&id) {
                    return Err(SubmitError::ComputeTaskPending);
                }
            },
            TransactionPayload::Empty => {},
        }
        let ghost t = tx@;
        match self.mempool.insert(h, tx) {
            Err(e) => Err(SubmitError::Pool(e)),
            Ok(()) => Ok(h),
        }
    }
}

/// A block as listed by the read API.
#[derive(Clone, Copy, Debug, PartialEq, Eq)]
pub struct BlockSummary {
    pub hash: p::Hash,
    pub height: u64,
    pub timestamp: u64,
}

/// A block as shown by the read API.
#[derive(Clone, Copy, Debug, PartialEq, Eq)]
pub struct BlockDetail {
    pub hash: p::Hash,
    pub height: u64,
    pub timestamp: u64,
    pub parent_hash: p::Hash,
    pub tx_count: u32,
}

/// A transaction as shown by the read API.
#[derive(Clone, Copy, Debug, PartialEq, Eq)]
pub struct TransactionDetail {
    pub hash: p::Hash,
    pub from: Address,
    pub to: Option<Address>,
    pub value: u128,
    pub block_hash: Option<p::Hash>,
    pub block_height: Option<u64>,
}

/// A validator as listed by the read API.
#[derive(Clone, Copy, Debug, PartialEq, Eq)]
pub struct Validator {
    pub address: Address,
}

/// Errors of the read API.
#[derive(Debug, PartialEq, Eq)]
pub enum ApiError {
    NotFound,
    Internal(StorageError),
}

pub open spec fn summary_of(b: SpecBlock) -> BlockSummary {
    BlockSummary { hash: spec_block_hash(b), height: b.header.height, timestamp: b.header.timestamp }
}

/// Summaries of the stored blocks at heights `latest`, `latest - 1`, …,
/// `latest - n + 1`, newest first, skipping heights with no block.
pub open spec fn recent_summaries(st: StoreView, latest: u64, n: nat) -> Seq<BlockSummary>
    decreases n,
{
    if n == 0 {
        Seq::empty()
    } else {
        let prev = recent_summaries(st, latest, (n - 1) as nat);
        match st.block_at((latest - (n - 1)) as u64) {
            Some(b) => prev.push(summary_of(b)),
            None => prev,
        }
    }
}

/// `s` names the block stored at index height `h`: its hash, its own
/// height and its timestamp.
pub open spec fn names_block_at(st: StoreView, h: u64, s: BlockSummary) -> bool {
    &&& st.block_at(h) is Some
    &&& s.hash == spec_block_hash(st.block_at(h)->Some_0)
    &&& s.height == st.block_at(h)->Some_0.header.height
    &&& s.timestamp == st.block_at(h)->Some_0.header.timestamp
}

/// The listed summaries describe the blocks they list: each one carries
/// the hash, height and timestamp of a block stored at one of the `n`
/// heights ending at `latest`; every block stored at those heights is
/// listed; and there are at most `n` of them.
pub proof fn law_listed_blocks(st: StoreView, latest: u64, n: nat)
    requires
        n <= latest + 1,
    ensures
        recent_summaries(st, latest, n).len() <= n,
        forall|k: int|
            0 <= k < recent_summaries(st, latest, n).len() ==> exists|h: u64|
                #![trigger st.block_at(h)]
                latest - n < h <= latest && names_block_at(st, h, #[trigger] recent_summaries(st, latest, n)[k]),
        forall|h: u64|
            latest - n < h <= latest && (#[trigger] st.block_at(h)) is Some ==> exists|k: int|
                0 <= k < recent_summaries(st, latest, n).len() && names_block_at(
                    st,
                    h,
                    #[trigger] recent_summaries(st, latest, n)[k],
                ),
    decreases n,
{
    if n > 0 {
        law_listed_blocks(st, latest, (n - 1) as nat);
        let prev = recent_summaries(st, latest, (n - 1) as nat);
        let cur = recent_summaries(st, latest, n);
        let top = (latest - (n - 1)) as u64;
        assert forall|k: int| 0 <= k < cur.len() implies exists|h: u64|
            #![trigger st.block_at(h)]
            latest - n < h <= latest && names_block_at(st, h, #[trigger] cur[k]) by {
            if k < prev.len() {
                assert(cur[k] == prev[k]);
                let h = choose|h: u64| latest - (n - 1) < h <= latest && names_block_at(st, h, prev[k]);
                assert(names_block_at(st, h, cur[k]));
                assert(st.block_at(h) is Some);
            } else {
                assert(names_block_at(st, top, cur[k]));
                assert(st.block_at(top) is Some);
            }
        }
        assert forall|h: u64| latest - n < h <= latest && (#[trigger] st.block_at(h)) is Some implies exists|k: int|
            0 <= k < cur.len() && names_block_at(st, h, #[trigger] cur[k]) by {
            if h == top {
                assert(names_block_at(st, h, cur[cur.len() - 1]));
            } else {
                let k = choose|k: int| 0 <= k < prev.len() && names_block_at(st, h, #[trigger] prev[k]);
                assert(cur[k] == prev[k]);
                assert(names_block_at(st, h, cur[k]));
            }
        }
    }
}

impl<S: Storage> NodeBackend<S> {
    /// The current chain height.
    pub fn get_block_height(&self) -> (r: Result<u64, StorageError>)
        ensures
            self.reliable() ==> r is Ok,
            r matches Ok(h) ==> h == self.store().latest_height,
    {
        self.storage.get_latest_height()
    }

    /// The hash of the block at the chain tip.
    pub fn get_latest_block_hash(&self) -> (r: Result<p::Hash, BackendError>)
        requires
            self.wf(),
        ensures
            self.reliable() ==> !(r matches Err(BackendError::Storage(_))),
            !(r matches Err(BackendError::Storage(_))) ==> match self.store().block_at(self.store().latest_height) {
                Some(b) => r == Ok::<p::Hash, BackendError>(spec_block_hash(b)),
                None => r == Err::<p::Hash, BackendError>(BackendError::BlockNotFound(self.store().latest_height)),
            },
    {
        let height = match self.storage.get_latest_height() {
            Err(e) => return Err(BackendError::Storage(e)),
            Ok(h) => h,
        };
        match self.storage.get_block_by_height(height) {
            Err(e) => Err(BackendError::Storage(e)),
            Ok(None) => Err(BackendError::BlockNotFound(height)),
            Ok(Some(b)) => {
                proof {
                    assert(self.store().blocks.contains_key(self.store().height_index[height]));
                }
                Ok(compute_block_hash(&b))
            },
        }
    }

    /// The block at `height`.
    pub fn get_block_by_height(&self, height: u64) -> (r: Result<Block, BackendError>)
        ensures
            self.reliable() ==> !(r matches Err(BackendError::Storage(_))),
            !(r matches Err(BackendError::Storage(_))) ==> match self.store().block_at(height) {
                Some(b) => r matches Ok(x) && x@ == b,
                None => r matches Err(BackendError::BlockNotFound(h)) && h == height,
            },
    {
        match self.storage.get_block_by_height(height) {
            Err(e) => Err(BackendError::Storage(e)),
            Ok(None) => Err(BackendError::BlockNotFound(height)),
            Ok(Some(b)) => Ok(b),
        }
    }

    /// Summaries of up to `limit` blocks, newest first.
    pub fn list_blocks(&self, limit: u32) -> (r: Result<Vec<BlockSummary>, ApiError>)
        requires
            self.wf(),
            self.store().latest_height < u64::MAX,
        ensures
            self.reliable() ==> r is Ok,
            r matches Ok(v) ==> v@ == recent_summaries(
                self.store(),
                self.store().latest_height,
                if (limit as u64) < self.store().latest_height + 1 {
                    limit as nat
                } else {
                    (self.store().latest_height + 1) as nat
                },
            ),
    {
        let latest = match self.storage.get_latest_height() {
            Err(e) => return Err(ApiError::Internal(e)),
            Ok(h) => h,
        };
        let count: u64 = if (limit as u64) < latest + 1 { limit as u64 } else { latest + 1 };
        let mut blocks: Vec<BlockSummary> = Vec::new();
        let mut i: u64 = 0;
        while i < count
            invariant
                0 <= i <= count <= latest + 1,
                latest == self.store().latest_height,
                self.wf(),
                blocks@ == recent_summaries(self.store(), latest, i as nat),
            decreases count - i,
        {
            let height = latest - i;
            match self.storage.get_block_by_height(height) {
                Err(e) => return Err(ApiError::Internal(e)),
                Ok(None) => {},
                Ok(Some(b)) => {
                    proof {
                        assert(self.store().blocks.contains_key(self.store().height_index[height]));
                    }
                    let hash = compute_block_hash(&b);
                    blocks.push(BlockSummary { hash, height: b.header.height, timestamp: b.header.timestamp });
                },
            }
            i += 1;
        }
        Ok(blocks)
    }

    /// The block with this hash, as shown by the read API.
    pub fn get_block(&self, hash: p::Hash) -> (r: Result<BlockDetail, ApiError>)
        ensures
            self.reliable() ==> !(r matches Err(ApiError::Internal(_))),
            !(r matches Err(ApiError::Internal(_))) ==> match self.store().block(hash) {
                Some(b) => r == Ok::<BlockDetail, ApiError>(BlockDetail {
                    hash,
                    height: b.header.height,
                    timestamp: b.header.timestamp,
                    parent_hash: b.header.parent_hash,
                    tx_count: b.transactions.len() as u32,
                }),
                None => r matches Err(ApiError::NotFound),
            },
    {
        match self.storage.get_block(&hash) {
            Err(e) => Err(ApiError::Internal(e)),
            Ok(None) => Err(ApiError::NotFound),
            Ok(Some(b)) => Ok(BlockDetail {
                hash,
                height: b.header.height,
                timestamp: b.header.timestamp,
                parent_hash: b.header.parent_hash,
                tx_count: b.body.transactions.len() as u32,
            }),
        }
    }

    /// The transaction with this hash, as shown by the read API.
    pub fn get_transaction(&self, hash: p::Hash) -> (r: Result<TransactionDetail, ApiError>)
        ensures
            self.reliable() ==> !(r matches Err(ApiError::Internal(_))),
            !(r matches Err(ApiError::Internal(_))) ==> match self.store().transaction(hash) {
                Some(t) => r == Ok::<TransactionDetail, ApiError>(TransactionDetail {
                    hash,
                    from: t.sender,
                    to: Some(t.receiver),
                    value: t.amount,
                    block_hash: None,
                    block_height: None,
                }),
                None => r matches Err(ApiError::NotFound),
            },
    {
        match self.storage.get_transaction(&hash) {
            Err(e) => Err(ApiError::Internal(e)),
            Ok(None) => Err(ApiError::NotFound),
            Ok(Some(t)) => Ok(TransactionDetail {
                hash,
                from: t.sender,
                to: Some(t.receiver),
                value: t.amount,
                block_hash: None,
                block_height: None,
            }),
        }
    }

    /// The account at this address.
    pub fn get_account(&self, address: Address) -> (r: Result<Account, ApiError>)
        ensures
            self.reliable() ==> !(r matches Err(ApiError::Internal(_))),
            !(r matches Err(ApiError::Internal(_))) ==> match self.store().account(address) {
                Some(a) => r == Ok::<Account, ApiError>(a),
                None => r matches Err(ApiError::NotFound),
            },
    {
        match self.storage.get_account(&address) {
            Err(e) => Err(ApiError::Internal(e)),
            Ok(None) => Err(ApiError::NotFound),
            Ok(Some(a)) => Ok(a),
        }
    }

    /// The validator set; none are tracked yet.
    pub fn list_validators(&self) -> (r: Vec<Validator>)
        ensures
            r@.len() == 0,
    {
        Vec::new()
    }
}

/// What became of a block announced by a peer.
#[derive(Debug, PartialEq, Eq)]
pub enum IncomingBlock {
    /// The local height could not be read.
    HeightUnavailable(StorageError),
    /// The block is not exactly one above the local tip.
    Ignored { local_height: u64 },
    /// The block was applied.
    Applied(p::Hash),
    /// The block was rejected.
    Rejected(ApplyBlockError),
}

} // verus!
