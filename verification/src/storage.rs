//! Domain-oriented persistence: the abstract store every backend keeps,
//! the batch operations that change it, and the in-memory backend.

use vstd::prelude::*;

use crate::model::{Account, Block, SpecBlock, SpecTransaction, Transaction};
use crate::primitives as p;
use crate::primitives::{Address, Duplicate};
use crate::table::Table;

verus! {

/// Errors a storage backend reports.
#[derive(Debug, PartialEq, Eq)]
pub enum StorageError {
    /// The storage engine failed.
    Database,
    /// Stored bytes did not decode.
    Serialization,
    /// The on-disk layout is not one this binary can open.
    Schema(SchemaProblem),
}

/// Why an on-disk layout was refused.
#[derive(Debug, PartialEq, Eq)]
pub enum SchemaProblem {
    /// A column family this binary does not know.
    UnknownColumnFamily(String),
    /// One of the column families every database must have is absent.
    MissingColumnFamily(String),
    /// The stored schema version is newer than this binary supports.
    NewerVersion { found: u32, supported: u32 },
    /// The stored schema version is not four bytes.
    MalformedVersion,
}

/// Everything a store holds, as mathematics.
pub struct StoreView {
    pub accounts: Map<Address, Account>,
    pub blocks: Map<p::Hash, SpecBlock>,
    pub transactions: Map<p::Hash, SpecTransaction>,
    /// Height → block hash.
    pub height_index: Map<u64, p::Hash>,
    /// Transaction sequence number → transaction hash.
    pub tx_seq_index: Map<u64, p::Hash>,
    /// The greatest height ever indexed (0 before any).
    pub latest_height: u64,
    /// The last allocated transaction sequence number (0 before any).
    pub tx_seq: u64,
    /// The sequence number of the last transaction included in a block.
    pub last_included_tx_seq: u64,
    /// Task id → opaque receipt bytes.
    pub receipts: Map<[u8; 32], Seq<u8>>,
    /// Task id → opaque compute task bytes.
    pub tasks: Map<[u8; 32], Seq<u8>>,
}

impl StoreView {
    /// The state of a fresh store.
    pub open spec fn empty() -> StoreView {
        StoreView {
            accounts: Map::empty(),
            blocks: Map::empty(),
            transactions: Map::empty(),
            height_index: Map::empty(),
            tx_seq_index: Map::empty(),
            latest_height: 0,
            tx_seq: 0,
            last_included_tx_seq: 0,
            receipts: Map::empty(),
            tasks: Map::empty(),
        }
    }

    pub open spec fn account(self, a: Address) -> Option<Account> {
        if self.accounts.contains_key(a) { Some(self.accounts[a]) } else { None }
    }

    pub open spec fn block(self, h: p::Hash) -> Option<SpecBlock> {
        if self.blocks.contains_key(h) { Some(self.blocks[h]) } else { None }
    }

    pub open spec fn transaction(self, h: p::Hash) -> Option<SpecTransaction> {
        if self.transactions.contains_key(h) { Some(self.transactions[h]) } else { None }
    }

    /// The block indexed at `height`, when both the index entry and the
    /// block it names are present.
    pub open spec fn block_at(self, height: u64) -> Option<SpecBlock> {
        if self.height_index.contains_key(height) {
            self.block(self.height_index[height])
        } else {
            None
        }
    }

    pub open spec fn tx_hash_at(self, seq: u64) -> Option<p::Hash> {
        if self.tx_seq_index.contains_key(seq) { Some(self.tx_seq_index[seq]) } else { None }
    }

    pub open spec fn receipt(self, id: [u8; 32]) -> Option<Seq<u8>> {
        if self.receipts.contains_key(id) { Some(self.receipts[id]) } else { None }
    }

    pub open spec fn task(self, id: [u8; 32]) -> Option<Seq<u8>> {
        if self.tasks.contains_key(id) { Some(self.tasks[id]) } else { None }
    }
}

/// One mutation in an atomic batch.
#[derive(Debug, PartialEq, Eq)]
pub enum BatchOp {
    PutAccount(Address, Account),
    PutBlock(p::Hash, Block),
    PutTransaction(p::Hash, Transaction),
    PutBlockHeightIndex(u64, p::Hash),
    PutTxSeqIndex(u64, p::Hash),
    SetTxSeq(u64),
    SetLastIncludedTxSeq(u64),
    PutReceipt([u8; 32], Vec<u8>),
    PutTask([u8; 32], Vec<u8>),
}

/// The mathematical value of a [`BatchOp`].
pub enum SpecBatchOp {
    PutAccount(Address, Account),
    PutBlock(p::Hash, SpecBlock),
    PutTransaction(p::Hash, SpecTransaction),
    PutBlockHeightIndex(u64, p::Hash),
    PutTxSeqIndex(u64, p::Hash),
    SetTxSeq(u64),
    SetLastIncludedTxSeq(u64),
    PutReceipt([u8; 32], Seq<u8>),
    PutTask([u8; 32], Seq<u8>),
}

impl View for BatchOp {
    type V = SpecBatchOp;

    open spec fn view(&self) -> SpecBatchOp {
        match self {
            BatchOp::PutAccount(a, acc) => SpecBatchOp::PutAccount(*a, *acc),
            BatchOp::PutBlock(h, b) => SpecBatchOp::PutBlock(*h, b@),
            BatchOp::PutTransaction(h, t) => SpecBatchOp::PutTransaction(*h, t@),
            BatchOp::PutBlockHeightIndex(n, h) => SpecBatchOp::PutBlockHeightIndex(*n, *h),
            BatchOp::PutTxSeqIndex(n, h) => SpecBatchOp::PutTxSeqIndex(*n, *h),
            BatchOp::SetTxSeq(n) => SpecBatchOp::SetTxSeq(*n),
            BatchOp::SetLastIncludedTxSeq(n) => SpecBatchOp::SetLastIncludedTxSeq(*n),
            BatchOp::PutReceipt(id, b) => SpecBatchOp::PutReceipt(*id, b@),
            BatchOp::PutTask(id, b) => SpecBatchOp::PutTask(*id, b@),
        }
    }
}

/// The views of a list of batch operations.
pub open spec fn ops_view(s: Seq<BatchOp>) -> Seq<SpecBatchOp> {
    Seq::new(s.len(), |i: int| s[i]@)
}

/// The effect of one operation. Indexing a height above the latest one
/// raises the latest height; indexing a lower one leaves it.
pub open spec fn apply_op(v: StoreView, op: SpecBatchOp) -> StoreView {
    match op {
        SpecBatchOp::PutAccount(a, acc) => StoreView { accounts: v.accounts.insert(a, acc), ..v },
        SpecBatchOp::PutBlock(h, b) => StoreView { blocks: v.blocks.insert(h, b), ..v },
        SpecBatchOp::PutTransaction(h, t) => StoreView {
            transactions: v.transactions.insert(h, t),
            ..v
        },
        SpecBatchOp::PutBlockHeightIndex(n, h) => StoreView {
            height_index: v.height_index.insert(n, h),
            latest_height: if n > v.latest_height { n } else { v.latest_height },
            ..v
        },
        SpecBatchOp::PutTxSeqIndex(n, h) => StoreView { tx_seq_index: v.tx_seq_index.insert(n, h), ..v },
        SpecBatchOp::SetTxSeq(n) => StoreView { tx_seq: n, ..v },
        SpecBatchOp::SetLastIncludedTxSeq(n) => StoreView { last_included_tx_seq: n, ..v },
        SpecBatchOp::PutReceipt(id, b) => StoreView { receipts: v.receipts.insert(id, b), ..v },
        SpecBatchOp::PutTask(id, b) => StoreView { tasks: v.tasks.insert(id, b), ..v },
    }
}

/// The effect of a batch: its operations in order.
pub open spec fn apply_ops(v: StoreView, ops: Seq<SpecBatchOp>) -> StoreView
    decreases ops.len(),
{
    if ops.len() == 0 {
        v
    } else {
        apply_op(apply_ops(v, ops.drop_last()), ops.last())
    }
}

/// A storage backend. Every read answers from [`Storage::state`]; every
/// write changes it as [`apply_op`] says; a backend that is `reliable`
/// never fails.
pub trait Storage: Sized {
    /// What the store holds.
    spec fn state(&self) -> StoreView;

    /// Whether every operation of this backend succeeds.
    spec fn reliable(&self) -> bool;

    fn get_account(&self, address: &Address) -> (r: Result<Option<Account>, StorageError>)
        ensures
            self.reliable() ==> r is Ok,
            r matches Ok(o) ==> o == self.state().account(*address),
    ;

    fn put_account(&mut self, address: &Address, account: &Account) -> (r: Result<(), StorageError>)
        ensures
            final(self).reliable() == old(self).reliable(),
            old(self).reliable() ==> r is Ok,
            r is Ok ==> final(self).state() == apply_op(
                old(self).state(),
                SpecBatchOp::PutAccount(*address, *account),
            ),
            r is Err ==> final(self).state() == old(self).state(),
    ;

    fn get_block(&self, hash: &p::Hash) -> (r: Result<Option<Block>, StorageError>)
        ensures
            self.reliable() ==> r is Ok,
            r matches Ok(o) ==> match o {
                Some(b) => self.state().block(*hash) == Some(b@),
                None => self.state().block(*hash) is None,
            },
    ;

    fn put_block(&mut self, hash: &p::Hash, block: &Block) -> (r: Result<(), StorageError>)
        ensures
            final(self).reliable() == old(self).reliable(),
            old(self).reliable() ==> r is Ok,
            r is Ok ==> final(self).state() == apply_op(old(self).state(), SpecBatchOp::PutBlock(*hash, block@)),
            r is Err ==> final(self).state() == old(self).state(),
    ;

    fn get_transaction(&self, hash: &p::Hash) -> (r: Result<Option<Transaction>, StorageError>)
        ensures
            self.reliable() ==> r is Ok,
            r matches Ok(o) ==> match o {
                Some(t) => self.state().transaction(*hash) == Some(t@),
                None => self.state().transaction(*hash) is None,
            },
    ;

    fn put_transaction(&mut self, hash: &p::Hash, tx: &Transaction) -> (r: Result<(), StorageError>)
        ensures
            final(self).reliable() == old(self).reliable(),
            old(self).reliable() ==> r is Ok,
            r is Ok ==> final(self).state() == apply_op(
                old(self).state(),
                SpecBatchOp::PutTransaction(*hash, tx@),
            ),
            r is Err ==> final(self).state() == old(self).state(),
    ;

    fn get_block_by_height(&self, height: u64) -> (r: Result<Option<Block>, StorageError>)
        ensures
            self.reliable() ==> r is Ok,
            r matches Ok(o) ==> match o {
                Some(b) => self.state().block_at(height) == Some(b@),
                None => self.state().block_at(height) is None,
            },
    ;

    fn put_block_height_index(&mut self, height: u64, hash: p::Hash) -> (r: Result<(), StorageError>)
        ensures
            final(self).reliable() == old(self).reliable(),
            old(self).reliable() ==> r is Ok,
            r is Ok ==> final(self).state() == apply_op(
                old(self).state(),
                SpecBatchOp::PutBlockHeightIndex(height, hash),
            ),
            r is Err ==> final(self).state() == old(self).state(),
    ;

    fn get_latest_height(&self) -> (r: Result<u64, StorageError>)
        ensures
            self.reliable() ==> r is Ok,
            r matches Ok(h) ==> h == self.state().latest_height,
    ;

    /// Allocates the next transaction sequence number.
    fn next_tx_seq(&mut self) -> (r: Result<u64, StorageError>)
        requires
            old(self).state().tx_seq < u64::MAX,
        ensures
            final(self).reliable() == old(self).reliable(),
            old(self).reliable() ==> r is Ok,
            r matches Ok(n) ==> n == old(self).state().tx_seq + 1 && final(self).state() == apply_op(
                old(self).state(),
                SpecBatchOp::SetTxSeq(n),
            ),
            r is Err ==> final(self).state() == old(self).state(),
    ;

    fn put_tx_seq_index(&mut self, seq: u64, hash: &p::Hash) -> (r: Result<(), StorageError>)
        ensures
            final(self).reliable() == old(self).reliable(),
            old(self).reliable() ==> r is Ok,
            r is Ok ==> final(self).state() == apply_op(
                old(self).state(),
                SpecBatchOp::PutTxSeqIndex(seq, *hash),
            ),
            r is Err ==> final(self).state() == old(self).state(),
    ;

    fn get_tx_hash_by_seq(&self, seq: u64) -> (r: Result<Option<p::Hash>, StorageError>)
        ensures
            self.reliable() ==> r is Ok,
            r matches Ok(o) ==> o == self.state().tx_hash_at(seq),
    ;

    fn get_last_included_tx_seq(&self) -> (r: Result<u64, StorageError>)
        ensures
            self.reliable() ==> r is Ok,
            r matches Ok(n) ==> n == self.state().last_included_tx_seq,
    ;

    fn set_last_included_tx_seq(&mut self, seq: u64) -> (r: Result<(), StorageError>)
        ensures
            final(self).reliable() == old(self).reliable(),
            old(self).reliable() ==> r is Ok,
            r is Ok ==> final(self).state() == apply_op(
                old(self).state(),
                SpecBatchOp::SetLastIncludedTxSeq(seq),
            ),
            r is Err ==> final(self).state() == old(self).state(),
    ;

    fn has_receipt(&self, task_id: &[u8; 32]) -> (r: Result<bool, StorageError>)
        ensures
            self.reliable() ==> r is Ok,
            r matches Ok(b) ==> b == self.state().receipts.contains_key(*task_id),
    ;

    fn get_receipt(&self, task_id: &[u8; 32]) -> (r: Result<Option<Vec<u8>>, StorageError>)
        ensures
            self.reliable() ==> r is Ok,
            r matches Ok(o) ==> match o {
                Some(b) => self.state().receipt(*task_id) == Some(b@),
                None => self.state().receipt(*task_id) is None,
            },
    ;

    fn has_task(&self, task_id: &[u8; 32]) -> (r: Result<bool, StorageError>)
        ensures
            self.reliable() ==> r is Ok,
            r matches Ok(b) ==> b == self.state().tasks.contains_key(*task_id),
    ;

    fn get_task(&self, task_id: &[u8; 32]) -> (r: Result<Option<Vec<u8>>, StorageError>)
        ensures
            self.reliable() ==> r is Ok,
            r matches Ok(o) ==> match o {
                Some(b) => self.state().task(*task_id) == Some(b@),
                None => self.state().task(*task_id) is None,
            },
    ;

    /// Applies every operation, or none of them.
    fn write_batch(&mut self, ops: Vec<BatchOp>) -> (r: Result<(), StorageError>)
        ensures
            final(self).reliable() == old(self).reliable(),
            old(self).reliable() ==> r is Ok,
            r is Ok ==> final(self).state() == apply_ops(old(self).state(), ops_view(ops@)),
            r is Err ==> final(self).state() == old(self).state(),
    ;
}

impl Duplicate for u64 {
    fn duplicate(&self) -> (r: Self) {
        *self
    }
}

/// In-memory storage; every operation succeeds.
pub struct InMemoryStorage {
    accounts: Table<Address, Account>,
    blocks: Table<p::Hash, Block>,
    transactions: Table<p::Hash, Transaction>,
    height_index: Table<u64, p::Hash>,
    tx_seq_index: Table<u64, p::Hash>,
    latest_height: u64,
    tx_seq: u64,
    last_included_tx_seq: u64,
    receipts: Table<[u8; 32], Vec<u8>>,
    tasks: Table<[u8; 32], Vec<u8>>,
}

impl InMemoryStorage {
    /// What the store holds.
    pub closed spec fn view(&self) -> StoreView {
        StoreView {
            accounts: self.accounts.view(),
            blocks: self.blocks.view(),
            transactions: self.transactions.view(),
            height_index: self.height_index.view(),
            tx_seq_index: self.tx_seq_index.view(),
            latest_height: self.latest_height,
            tx_seq: self.tx_seq,
            last_included_tx_seq: self.last_included_tx_seq,
            receipts: self.receipts.view(),
            tasks: self.tasks.view(),
        }
    }

    /// Creates an empty store, one that never fails.
    pub fn new() -> (r: InMemoryStorage)
        ensures
            r.view() == StoreView::empty(),
            r.state() == StoreView::empty(),
            r.reliable(),
    {
        InMemoryStorage {
            accounts: Table::new(),
            blocks: Table::new(),
            transactions: Table::new(),
            height_index: Table::new(),
            tx_seq_index: Table::new(),
            latest_height: 0,
            tx_seq: 0,
            last_included_tx_seq: 0,
            receipts: Table::new(),
            tasks: Table::new(),
        }
    }

    /// Applies one operation.
    fn apply(&mut self, op: &BatchOp)
        ensures
            final(self).view() == apply_op(old(self).view(), op@),
    {
        match op {
            BatchOp::PutAccount(a, acc) => {
                self.accounts.insert(*a, *acc);
            },
            BatchOp::PutBlock(h, b) => {
                self.blocks.insert(*h, b.duplicate());
            },
            BatchOp::PutTransaction(h, t) => {
                self.transactions.insert(*h, t.duplicate());
            },
            BatchOp::PutBlockHeightIndex(n, h) => {
                self.height_index.insert(*n, *h);
                if *n > self.latest_height {
                    self.latest_height = *n;
                }
            },
            BatchOp::PutTxSeqIndex(n, h) => {
                self.tx_seq_index.insert(*n, *h);
            },
            BatchOp::SetTxSeq(n) => {
                self.tx_seq = *n;
            },
            BatchOp::SetLastIncludedTxSeq(n) => {
                self.last_included_tx_seq = *n;
            },
            BatchOp::PutReceipt(id, b) => {
                self.receipts.insert(*id, b.duplicate());
            },
            BatchOp::PutTask(id, b) => {
                self.tasks.insert(*id, b.duplicate());
            },
        }
    }
}

impl Default for InMemoryStorage {
    fn default() -> (r: Self)
        ensures
            r.view() == StoreView::empty(),
            r.state() == StoreView::empty(),
            r.reliable(),
    {
        InMemoryStorage::new()
    }
}

impl Storage for InMemoryStorage {
    open spec fn state(&self) -> StoreView {
        self.view()
    }

    open spec fn reliable(&self) -> bool {
        true
    }

    fn get_account(&self, address: &Address) -> (r: Result<Option<Account>, StorageError>) {
        Ok(self.accounts.get_copy(address))
    }

    fn put_account(&mut self, address: &Address, account: &Account) -> (r: Result<(), StorageError>) {
        self.apply(&BatchOp::PutAccount(*address, *account));
        Ok(())
    }

    fn get_block(&self, hash: &p::Hash) -> (r: Result<Option<Block>, StorageError>) {
        Ok(self.blocks.get_copy(hash))
    }

    fn put_block(&mut self, hash: &p::Hash, block: &Block) -> (r: Result<(), StorageError>) {
        self.apply(&BatchOp::PutBlock(*hash, block.duplicate()));
        Ok(())
    }

    fn get_transaction(&self, hash: &p::Hash) -> (r: Result<Option<Transaction>, StorageError>) {
        Ok(self.transactions.get_copy(hash))
    }

    fn put_transaction(&mut self, hash: &p::Hash, tx: &Transaction) -> (r: Result<(), StorageError>) {
        self.apply(&BatchOp::PutTransaction(*hash, tx.duplicate()));
        Ok(())
    }

    fn get_block_by_height(&self, height: u64) -> (r: Result<Option<Block>, StorageError>) {
        match self.height_index.get(&height) {
            Some(h) => Ok(self.blocks.get_copy(h)),
            None => Ok(None),
        }
    }

    fn put_block_height_index(&mut self, height: u64, hash: p::Hash) -> (r: Result<(), StorageError>) {
        self.apply(&BatchOp::PutBlockHeightIndex(height, hash));
        Ok(())
    }

    fn get_latest_height(&self) -> (r: Result<u64, StorageError>) {
        Ok(self.latest_height)
    }

    fn next_tx_seq(&mut self) -> (r: Result<u64, StorageError>) {
        let next = self.tx_seq + 1;
        self.apply(&BatchOp::SetTxSeq(next));
        Ok(next)
    }

    fn put_tx_seq_index(&mut self, seq: u64, hash: &p::Hash) -> (r: Result<(), StorageError>) {
        self.apply(&BatchOp::PutTxSeqIndex(seq, *hash));
        Ok(())
    }

    fn get_tx_hash_by_seq(&self, seq: u64) -> (r: Result<Option<p::Hash>, StorageError>) {
        Ok(self.tx_seq_index.get_copy(&seq))
    }

    fn get_last_included_tx_seq(&self) -> (r: Result<u64, StorageError>) {
        Ok(self.last_included_tx_seq)
    }

    fn set_last_included_tx_seq(&mut self, seq: u64) -> (r: Result<(), StorageError>) {
        self.apply(&BatchOp::SetLastIncludedTxSeq(seq));
        Ok(())
    }

    fn has_receipt(&self, task_id: &[u8; 32]) -> (r: Result<bool, StorageError>) {
        Ok(self.receipts.contains_key(task_id))
    }

    fn get_receipt(&self, task_id: &[u8; 32]) -> (r: Result<Option<Vec<u8>>, StorageError>) {
        Ok(self.receipts.get_copy(task_id))
    }

    fn has_task(&self, task_id: &[u8; 32]) -> (r: Result<bool, StorageError>) {
        Ok(self.tasks.contains_key(task_id))
    }

    fn get_task(&self, task_id: &[u8; 32]) -> (r: Result<Option<Vec<u8>>, StorageError>) {
        Ok(self.tasks.get_copy(task_id))
    }

    fn write_batch(&mut self, ops: Vec<BatchOp>) -> (r: Result<(), StorageError>) {
        let ghost start = self.view();
        let ghost all = ops_view(ops@);
        let mut i: usize = 0;
        while i < ops.len()
            invariant
                0 <= i <= ops@.len(),
                all == ops_view(ops@),
                self.view() == apply_ops(start, all.subrange(0, i as int)),
            decreases ops.len() - i,
        {
            self.apply(&ops[i]);
            proof {
                let pre = all.subrange(0, i as int + 1);
                assert(pre.drop_last() =~= all.subrange(0, i as int));
            }
            i += 1;
        }
        proof {
            assert(all.subrange(0, ops@.len() as int) =~= all);
        }
        Ok(())
    }
}

} // verus!
