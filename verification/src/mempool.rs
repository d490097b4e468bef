//! The pending-transaction pool: insertion-ordered, free of duplicates by
//! hash, by (sender, nonce), by anchored receipt task id and by committed
//! compute task id.

use vstd::prelude::*;

use crate::codec::tx_encodable;
use crate::crypto::spec_task_id;
use crate::model::{ComputeTask, SpecComputeTask, SpecPayload, SpecTransaction, Transaction, TransactionPayload};
use crate::primitives as p;
use crate::primitives::{Address, Duplicate, KeyEq};

verus! {

/// Why a transaction was refused by the pool.
#[derive(Clone, Copy, Debug, PartialEq, Eq)]
pub enum MempoolError {
    /// A transaction with this hash is already pending.
    DuplicateHash,
    /// A transaction from this sender with this nonce is already pending.
    DuplicateSenderNonce,
    /// A receipt anchoring under the same task id is already pending.
    DuplicateTaskId,
    /// A compute task with the same task id is already pending.
    DuplicateComputeTask,
}

/// What is pending for one sender, read against its committed nonce.
#[derive(Clone, Copy, Debug, PartialEq, Eq)]
pub struct SenderPending {
    /// The first nonce at or above the committed one that is not pending;
    /// `None` when every nonce up to `u64::MAX` is pending.
    pub expected_nonce: Option<u64>,
    /// The amounts of the contiguous pending chain from the committed
    /// nonce, summed and saturated at `u128::MAX`.
    pub pending_debit: u128,
    /// All pending entries of the sender, below the committed nonce too.
    pub len: usize,
}

/// One pending entry, as mathematics.
pub type PoolEntry = (p::Hash, SpecTransaction);

/// The receipt task id an entry anchors, if it anchors one.
pub open spec fn anchor_id(t: SpecTransaction) -> Option<[u8; 32]> {
    match t.payload {
        SpecPayload::AnchorReceipt(r) => Some(r.task_id),
        _ => None,
    }
}

/// The task id of the compute task an entry commits, if it commits one.
pub open spec fn compute_id(t: SpecTransaction) -> Option<[u8; 32]> {
    match t.payload {
        SpecPayload::ComputeTask(k) => Some(spec_task_id(k)),
        _ => None,
    }
}

/// Two entries may be pending together.
pub open spec fn compatible(a: PoolEntry, b: PoolEntry) -> bool {
    &&& a.0 != b.0
    &&& !(a.1.sender == b.1.sender && a.1.nonce == b.1.nonce)
    &&& !(anchor_id(a.1) is Some && anchor_id(a.1) == anchor_id(b.1))
    &&& !(compute_id(a.1) is Some && compute_id(a.1) == compute_id(b.1))
}

pub open spec fn pool_wf(v: Seq<PoolEntry>) -> bool {
    &&& forall|i: int| 0 <= i < v.len() ==> tx_encodable(#[trigger] v[i].1)
    &&& forall|i: int, j: int| 0 <= i < j < v.len() ==> compatible(#[trigger] v[i], #[trigger] v[j])
}

pub open spec fn has_hash(v: Seq<PoolEntry>, h: p::Hash) -> bool {
    exists|i: int| 0 <= i < v.len() && (#[trigger] v[i]).0 == h
}

pub open spec fn has_sender_nonce(v: Seq<PoolEntry>, s: Address, n: u64) -> bool {
    exists|i: int| 0 <= i < v.len() && (#[trigger] v[i]).1.sender == s && v[i].1.nonce == n
}

pub open spec fn has_anchor_id(v: Seq<PoolEntry>, id: [u8; 32]) -> bool {
    exists|i: int| 0 <= i < v.len() && anchor_id((#[trigger] v[i]).1) == Some(id)
}

pub open spec fn has_compute_id(v: Seq<PoolEntry>, id: [u8; 32]) -> bool {
    exists|i: int| 0 <= i < v.len() && compute_id((#[trigger] v[i]).1) == Some(id)
}

/// The amount of the pending transaction of `s` with nonce `n`.
pub open spec fn amount_at(v: Seq<PoolEntry>, s: Address, n: int) -> int {
    if has_sender_nonce(v, s, n as u64) && 0 <= n <= u64::MAX {
        let i = choose|i: int| 0 <= i < v.len() && (#[trigger] v[i]).1.sender == s && v[i].1.nonce == n as u64;
        v[i].1.amount as int
    } else {
        0
    }
}

/// The first nonce at or above `n` that `s` has not pending, or 2^64 when
/// all of them are.
pub open spec fn chain_end(v: Seq<PoolEntry>, s: Address, n: int) -> int
    decreases 0x1_0000_0000_0000_0000 - n,
{
    if n < 0 || n > u64::MAX {
        n
    } else if has_sender_nonce(v, s, n as u64) {
        chain_end(v, s, n + 1)
    } else {
        n
    }
}

/// Sum of the amounts of `s`'s pending nonces in `[from, to)`.
pub open spec fn chain_sum(v: Seq<PoolEntry>, s: Address, from: int, to: int) -> int
    decreases to - from,
{
    if to <= from {
        0
    } else {
        chain_sum(v, s, from, to - 1) + amount_at(v, s, to - 1)
    }
}

/// The number of pending entries of `s`.
pub open spec fn sender_count(v: Seq<PoolEntry>, s: Address) -> nat {
    v.filter(|e: PoolEntry| e.1.sender == s).len()
}

/// The report [`Mempool::sender_pending`] gives.
pub open spec fn spec_sender_pending(v: Seq<PoolEntry>, s: Address, committed: u64) -> SenderPending {
    let end = chain_end(v, s, committed as int);
    let sum = chain_sum(v, s, committed as int, end);
    SenderPending {
        expected_nonce: if end <= u64::MAX { Some(end as u64) } else { None },
        pending_debit: if sum >= u128::MAX { u128::MAX } else { sum as u128 },
        len: sender_count(v, s) as usize,
    }
}

/// The compute task pending under `id` (meaningful when one is).
pub open spec fn pending_task_with_id(v: Seq<PoolEntry>, id: [u8; 32]) -> SpecComputeTask {
    let i = choose|i: int| 0 <= i < v.len() && compute_id((#[trigger] v[i]).1) == Some(id);
    match v[i].1.payload {
        SpecPayload::ComputeTask(k) => k,
        _ => arbitrary(),
    }
}

/// The pool after `hashes` leave it.
pub open spec fn without_hashes(v: Seq<PoolEntry>, hashes: Seq<p::Hash>) -> Seq<PoolEntry> {
    v.filter(|e: PoolEntry| !hashes.contains(e.0))
}

/// The views of a list of (hash, transaction) pairs.
pub open spec fn entries_view(s: Seq<(p::Hash, Transaction)>) -> Seq<PoolEntry> {
    Seq::new(s.len(), |i: int| (s[i].0, s[i].1@))
}

/// Copies a list of (hash, transaction) pairs.
pub fn copy_entries(s: &[(p::Hash, Transaction)], n: usize) -> (r: Vec<(p::Hash, Transaction)>)
    requires
        n <= s@.len(),
    ensures
        entries_view(r@) == entries_view(s@).take(n as int),
{
    let mut out: Vec<(p::Hash, Transaction)> = Vec::new();
    let mut i: usize = 0;
    while i < n
        invariant
            0 <= i <= n <= s@.len(),
            entries_view(out@) == entries_view(s@).take(i as int),
        decreases n - i,
    {
        let ghost pre = out@;
        let e = (s[i].0, s[i].1.duplicate());
        out.push(e);
        proof {
            assert(entries_view(pre).len() == pre.len());
            assert(pre.len() == i);
            assert(out@ == pre.push(e));
            assert(entries_view(out@) =~= entries_view(s@).take(i as int + 1));
        }
        i += 1;
    }
    out
}

/// Whether `h` is one of `hashes`.
fn slice_contains_hash(hashes: &[p::Hash], h: &p::Hash) -> (r: bool)
    ensures
        r == hashes@.contains(*h),
{
    let mut i: usize = 0;
    while i < hashes.len()
        invariant
            0 <= i <= hashes@.len(),
            forall|j: int| 0 <= j < i ==> hashes@[j] != *h,
        decreases hashes@.len() - i,
    {
        if hashes[i].key_eq(h) {
            return true;
        }
        i += 1;
    }
    false
}

/// The receipt task id a transaction anchors, if any.
pub fn task_id_of(tx: &Transaction) -> (r: Option<[u8; 32]>)
    ensures
        r == anchor_id(tx@),
{
    match &tx.payload {
        TransactionPayload::AnchorReceipt(receipt) => Some(receipt.task_id),
        _ => None,
    }
}

/// The task id of the compute task a transaction commits, if any.
pub fn compute_task_id_of(tx: &Transaction) -> (r: Option<[u8; 32]>)
    requires
        tx_encodable(tx@),
    ensures
        r == compute_id(tx@),
{
    match &tx.payload {
        TransactionPayload::ComputeTask(task) => Some(task.task_id()),
        _ => None,
    }
}

fn opt_id_eq(a: &Option<[u8; 32]>, b: &[u8; 32]) -> (r: bool)
    ensures
        r == (*a == Some(*b)),
{
    match a {
        Some(x) => x.key_eq(b),
        None => false,
    }
}

impl Default for Mempool {
    fn default() -> (r: Self)
        ensures
            r.wf(),
            r.view() == Seq::<PoolEntry>::empty(),
    {
        Mempool::new()
    }
}

/// Pending transactions in insertion order.
pub struct Mempool {
    entries: Vec<(p::Hash, Transaction)>,
}

impl Mempool {
    /// The pending entries, in insertion order.
    pub closed spec fn view(&self) -> Seq<PoolEntry> {
        entries_view(self.entries@)
    }

    /// The pool's invariant: every entry is encodable and no two conflict.
    pub open spec fn wf(&self) -> bool {
        pool_wf(self.view())
    }

    /// An empty pool.
    pub fn new() -> (r: Mempool)
        ensures
            r.wf(),
            r.view() == Seq::<PoolEntry>::empty(),
    {
        let r = Mempool { entries: Vec::new() };
        proof {
            assert(r.view() =~= Seq::<PoolEntry>::empty());
        }
        r
    }

    fn find_hash(&self, h: &p::Hash) -> (r: Option<usize>)
        ensures
            match r {
                Some(i) => i < self.view().len() && self.view()[i as int].0 == *h,
                None => !has_hash(self.view(), *h),
            },
    {
        let mut i: usize = 0;
        while i < self.entries.len()
            invariant
                0 <= i <= self.entries@.len(),
                forall|j: int| 0 <= j < i ==> self.view()[j].0 != *h,
            decreases self.entries@.len() - i,
        {
            if self.entries[i].0.key_eq(h) {
                return Some(i);
            }
            i += 1;
        }
        None
    }

    fn find_sender_nonce(&self, s: &Address, n: u64) -> (r: Option<usize>)
        ensures
            match r {
                Some(i) => i < self.view().len() && self.view()[i as int].1.sender == *s
                    && self.view()[i as int].1.nonce == n,
                None => !has_sender_nonce(self.view(), *s, n),
            },
    {
        let mut i: usize = 0;
        while i < self.entries.len()
            invariant
                0 <= i <= self.entries@.len(),
                forall|j: int|
                    0 <= j < i ==> !(self.view()[j].1.sender == *s && self.view()[j].1.nonce == n),
            decreases self.entries@.len() - i,
        {
            if self.entries[i].1.sender.key_eq(s) && self.entries[i].1.nonce == n {
                return Some(i);
            }
            i += 1;
        }
        None
    }

    /// Whether an anchoring of a receipt for `task_id` is pending.
    pub fn contains_task_id(&self, task_id: &[u8; 32]) -> (r: bool)
        ensures
            r == has_anchor_id(self.view(), *task_id),
    {
        let mut i: usize = 0;
        while i < self.entries.len()
            invariant
                0 <= i <= self.entries@.len(),
                forall|j: int| 0 <= j < i ==> anchor_id(self.view()[j].1) != Some(*task_id),
            decreases self.entries@.len() - i,
        {
            let id = task_id_of(&self.entries[i].1);
            if opt_id_eq(&id, task_id) {
                proof {
                    let v = self.view();
                    assert(v[i as int].1 == self.entries@[i as int].1@);
                    assert(anchor_id(v[i as int].1) == Some(*task_id));
                }
                return true;
            }
            i += 1;
        }
        false
    }

    fn find_compute_task(&self, task_id: &[u8; 32]) -> (r: Option<usize>)
        requires
            self.wf(),
        ensures
            match r {
                Some(i) => i < self.view().len() && compute_id(self.view()[i as int].1) == Some(*task_id),
                None => !has_compute_id(self.view(), *task_id),
            },
    {
        let mut i: usize = 0;
        while i < self.entries.len()
            invariant
                0 <= i <= self.entries@.len(),
                self.wf(),
                forall|j: int| 0 <= j < i ==> compute_id(self.view()[j].1) != Some(*task_id),
            decreases self.entries@.len() - i,
        {
            assert(tx_encodable(self.view()[i as int].1));
            let id = compute_task_id_of(&self.entries[i].1);
            if opt_id_eq(&id, task_id) {
                return Some(i);
            }
            i += 1;
        }
        None
    }

    /// Whether a compute task with `task_id` is pending.
    pub fn contains_compute_task_id(&self, task_id: &[u8; 32]) -> (r: bool)
        requires
            self.wf(),
        ensures
            r == has_compute_id(self.view(), *task_id),
    {
        self.find_compute_task(task_id).is_some()
    }

    /// The compute task pending under `task_id`, if any.
    pub fn pending_compute_task(&self, task_id: &[u8; 32]) -> (r: Option<ComputeTask>)
        requires
            self.wf(),
        ensures
            match r {
                Some(t) => has_compute_id(self.view(), *task_id) && t@ == pending_task_with_id(
                    self.view(),
                    *task_id,
                ),
                None => !has_compute_id(self.view(), *task_id),
            },
    {
        match self.find_compute_task(task_id) {
            Some(i) => {
                let ghost v = self.view();
                proof {
                    let j = choose|j: int| 0 <= j < v.len() && compute_id((#[trigger] v[j]).1) == Some(*task_id);
                    if j != i {
                        if j < i {
                            assert(compatible(v[j], v[i as int]));
                        } else {
                            assert(compatible(v[i as int], v[j]));
                        }
                    }
                }
                match &self.entries[i].1.payload {
                    TransactionPayload::ComputeTask(task) => Some(task.duplicate()),
                    _ => None,
                }
            },
            None => None,
        }
    }

    /// Number of pending transactions.
    pub fn len(&self) -> (r: usize)
        ensures
            r == self.view().len(),
    {
        self.entries.len()
    }

    /// Whether a transaction with this hash is pending.
    pub fn contains_hash(&self, hash: &p::Hash) -> (r: bool)
        ensures
            r == has_hash(self.view(), *hash),
    {
        self.find_hash(hash).is_some()
    }

    /// Adds a transaction unless it conflicts with a pending one; the
    /// checks run in this order: hash, (sender, nonce), receipt task id,
    /// compute task id.
    pub fn insert(&mut self, tx_hash: p::Hash, tx: Transaction) -> (r: Result<(), MempoolError>)
        requires
            old(self).wf(),
            tx_encodable(tx@),
        ensures
            final(self).wf(),
            ({
                let v = old(self).view();
                if has_hash(v, tx_hash) {
                    r == Err::<(), MempoolError>(MempoolError::DuplicateHash) && final(self).view() == v
                } else if has_sender_nonce(v, tx@.sender, tx@.nonce) {
                    r == Err::<(), MempoolError>(MempoolError::DuplicateSenderNonce) && final(self).view() == v
                } else if anchor_id(tx@) matches Some(id) && has_anchor_id(v, id) {
                    r == Err::<(), MempoolError>(MempoolError::DuplicateTaskId) && final(self).view() == v
                } else if compute_id(tx@) matches Some(id) && has_compute_id(v, id) {
                    r == Err::<(), MempoolError>(MempoolError::DuplicateComputeTask) && final(self).view() == v
                } else {
                    r is Ok && final(self).view() == v.push((tx_hash, tx@))
                }
            }),
    {
        let ghost v = self.view();
        if self.find_hash(&tx_hash).is_some() {
            return Err(MempoolError::DuplicateHash);
        }
        if self.find_sender_nonce(&tx.sender, tx.nonce).is_some() {
            return Err(MempoolError::DuplicateSenderNonce);
        }
        let tid = task_id_of(&tx);
        if let Some(id) = &tid {
            if self.contains_task_id(id) {
                return Err(MempoolError::DuplicateTaskId);
            }
        }
        let cid = compute_task_id_of(&tx);
        if let Some(id) = &cid {
            if self.contains_compute_task_id(id) {
                return Err(MempoolError::DuplicateComputeTask);
            }
        }
        let ghost e = (tx_hash, tx@);
        self.entries.push((tx_hash, tx));
        proof {
            assert(self.view() =~= v.push(e));
            let w = self.view();
            assert forall|i: int, j: int| 0 <= i < j < w.len() implies compatible(
                #[trigger] w[i],
                #[trigger] w[j],
            ) by {
                if j == v.len() {
                    assert(w[i] == v[i]);
                    assert(w[j] == e);
                    if anchor_id(v[i].1) is Some && anchor_id(v[i].1) == anchor_id(e.1) {
                        assert(has_anchor_id(v, anchor_id(e.1)->0));
                    }
                    if compute_id(v[i].1) is Some && compute_id(v[i].1) == compute_id(e.1) {
                        assert(has_compute_id(v, compute_id(e.1)->0));
                    }
                    if v[i].1.sender == e.1.sender && v[i].1.nonce == e.1.nonce {
                        assert(has_sender_nonce(v, e.1.sender, e.1.nonce));
                    }
                } else {
                    assert(w[i] == v[i] && w[j] == v[j]);
                }
            }
        }
        Ok(())
    }

    /// Reports what is pending for `sender` against `committed_nonce`: the
    /// walk goes up from the committed nonce while each nonce is pending;
    /// entries below it count only in `len`.
    pub fn sender_pending(&self, sender: &Address, committed_nonce: u64) -> (r: SenderPending)
        requires
            self.wf(),
        ensures
            r == spec_sender_pending(self.view(), *sender, committed_nonce),
    {
        let ghost v = self.view();
        let ghost pred = |e: PoolEntry| e.1.sender == *sender;
        let mut len: usize = 0;
        let mut i: usize = 0;
        while i < self.entries.len()
            invariant
                0 <= i <= self.entries@.len(),
                v == self.view(),
                pred == (|e: PoolEntry| e.1.sender == *sender),
                len == v.take(i as int).filter(pred).len(),
                len <= i,
            decreases self.entries@.len() - i,
        {
            proof {
                assert(v.take(i as int + 1) =~= v.take(i as int).push(v[i as int]));
                v.take(i as int).lemma_filter_push(v[i as int], pred);
            }
            if self.entries[i].1.sender.key_eq(sender) {
                len = len + 1;
            }
            i += 1;
        }
        proof {
            assert(v.take(v.len() as int) =~= v);
        }
        let mut expected: u64 = committed_nonce;
        let mut debit: u128 = 0;
        loop
            invariant
                v == self.view(),
                self.wf(),
                committed_nonce <= expected,
                len == sender_count(v, *sender),
                chain_end(v, *sender, committed_nonce as int) == chain_end(v, *sender, expected as int),
                chain_sum(v, *sender, committed_nonce as int, expected as int) >= 0,
                debit == (if chain_sum(v, *sender, committed_nonce as int, expected as int)
                    >= u128::MAX {
                    u128::MAX
                } else {
                    chain_sum(v, *sender, committed_nonce as int, expected as int) as u128
                }),
            decreases u64::MAX - expected,
        {
            match self.find_sender_nonce(sender, expected) {
                None => {
                    return SenderPending { expected_nonce: Some(expected), pending_debit: debit, len };
                },
                Some(k) => {
                    let amount = self.entries[k].1.amount;
                    proof {
                        let j = choose|j: int|
                            0 <= j < v.len() && (#[trigger] v[j]).1.sender == *sender && v[j].1.nonce
                                == expected;
                        if j != k {
                            if j < k {
                                assert(compatible(v[j], v[k as int]));
                            } else {
                                assert(compatible(v[k as int], v[j]));
                            }
                        }
                        assert(amount_at(v, *sender, expected as int) == amount);
                        assert(chain_sum(v, *sender, committed_nonce as int, expected + 1) == chain_sum(
                            v,
                            *sender,
                            committed_nonce as int,
                            expected as int,
                        ) + amount);
                        assert(chain_end(v, *sender, expected as int) == chain_end(
                            v,
                            *sender,
                            expected + 1,
                        ));
                    }
                    if debit > u128::MAX - amount {
                        debit = u128::MAX;
                    } else {
                        debit = debit + amount;
                    }
                    if expected == u64::MAX {
                        return SenderPending { expected_nonce: None, pending_debit: debit, len };
                    }
                    expected = expected + 1;
                },
            }
        }
    }

    /// Up to `max` pending transactions in insertion order; nothing leaves
    /// the pool.
    pub fn peek_for_block(&self, max: usize) -> (r: Vec<(p::Hash, Transaction)>)
        ensures
            entries_view(r@) == self.view().take(
                if max < self.view().len() { max as int } else { self.view().len() as int },
            ),
    {
        let n = if max < self.entries.len() { max } else { self.entries.len() };
        copy_entries(self.entries.as_slice(), n)
    }

    /// Removes every pending transaction whose hash is in `hashes`,
    /// keeping the order of the rest. Unknown hashes are ignored.
    pub fn remove_included(&mut self, hashes: &[p::Hash])
        requires
            old(self).wf(),
        ensures
            final(self).wf(),
            final(self).view() == without_hashes(old(self).view(), hashes@),
    {
        let ghost v = self.view();
        let ghost pred = |e: PoolEntry| !hashes@.contains(e.0);
        let mut kept: Vec<(p::Hash, Transaction)> = Vec::new();
        let ghost mut idx: Seq<int> = Seq::empty();
        let mut i: usize = 0;
        while i < self.entries.len()
            invariant
                0 <= i <= self.entries@.len(),
                v == self.view(),
                pool_wf(v),
                pred == (|e: PoolEntry| !hashes@.contains(e.0)),
                entries_view(kept@) == v.take(i as int).filter(pred),
                idx.len() == kept@.len(),
                forall|k: int| 0 <= k < idx.len() ==> 0 <= #[trigger] idx[k] < i,
                forall|k: int| 0 <= k < idx.len() ==> entries_view(kept@)[k] == v[#[trigger] idx[k]],
                forall|a: int, b: int| 0 <= a < b < idx.len() ==> #[trigger] idx[a] < #[trigger] idx[b],
            decreases self.entries@.len() - i,
        {
            proof {
                assert(v.take(i as int + 1) =~= v.take(i as int).push(v[i as int]));
                v.take(i as int).lemma_filter_push(v[i as int], pred);
            }
            if !slice_contains_hash(hashes, &self.entries[i].0) {
                let ghost pre = kept@;
                let e = (self.entries[i].0, self.entries[i].1.duplicate());
                kept.push(e);
                proof {
                    assert(kept@ == pre.push(e));
                    assert(entries_view(kept@) =~= entries_view(pre).push(v[i as int]));
                    idx = idx.push(i as int);
                }
            }
            i += 1;
        }
        proof {
            assert(v.take(v.len() as int) =~= v);
            let w = entries_view(kept@);
            assert forall|a: int| 0 <= a < w.len() implies tx_encodable(#[trigger] w[a].1) by {
                assert(w[a] == v[idx[a]]);
            }
            assert forall|a: int, b: int| 0 <= a < b < w.len() implies compatible(
                #[trigger] w[a],
                #[trigger] w[b],
            ) by {
                assert(w[a] == v[idx[a]]);
                assert(w[b] == v[idx[b]]);
                assert(idx[a] < idx[b]);
            }
        }
        self.entries = kept;
    }

    /// Removes the pending transaction with this hash, if any.
    pub fn remove(&mut self, hash: &p::Hash)
        requires
            old(self).wf(),
        ensures
            final(self).wf(),
            final(self).view() == without_hashes(old(self).view(), seq![*hash]),
    {
        let hs: Vec<p::Hash> = vec![*hash];
        proof {
            assert(hs@ =~= seq![*hash]);
        }
        self.remove_included(hs.as_slice());
    }
}

/// The first free nonce of a chain is free.
pub proof fn lemma_chain_end_free(v: Seq<PoolEntry>, s: Address, n: int)
    requires
        0 <= n,
        chain_end(v, s, n) <= u64::MAX,
    ensures
        !has_sender_nonce(v, s, chain_end(v, s, n) as u64),
        n <= chain_end(v, s, n),
    decreases 0x1_0000_0000_0000_0000 - n,
{
    if n <= u64::MAX && has_sender_nonce(v, s, n as u64) {
        lemma_chain_end_free(v, s, n + 1);
    }
}

} // verus!
