//! Properties of the library as a whole: what a read gives back of a
//! write, what moving money and consuming a nonce keep, how the pending
//! pool treats senders and removals, and that genesis is written once.

use vstd::prelude::*;

use crate::backend::{genesis_block, genesis_state};
use crate::crypto::spec_block_hash;
use crate::mempool::{
    amount_at, chain_end, chain_sum, compatible, has_hash, has_sender_nonce, pool_wf, spec_sender_pending,
    without_hashes, PoolEntry,
};
use crate::model::Account;
use crate::primitives as p;
use crate::primitives::Address;
use crate::storage::{apply_op, apply_ops, SpecBatchOp, StoreView};

verus! {

/// A read gives back what the last write under the same key wrote.
pub proof fn law_read_after_write(v: StoreView, op: SpecBatchOp)
    ensures
        op matches SpecBatchOp::PutAccount(a, acc) ==> apply_op(v, op).account(a) == Some(acc),
        op matches SpecBatchOp::PutBlock(h, b) ==> apply_op(v, op).block(h) == Some(b),
        op matches SpecBatchOp::PutTransaction(h, t) ==> apply_op(v, op).transaction(h) == Some(t),
        op matches SpecBatchOp::PutTxSeqIndex(n, h) ==> apply_op(v, op).tx_hash_at(n) == Some(h),
        op matches SpecBatchOp::PutReceipt(id, b) ==> apply_op(v, op).receipt(id) == Some(b),
        op matches SpecBatchOp::PutTask(id, b) ==> apply_op(v, op).task(id) == Some(b),
        op matches SpecBatchOp::SetLastIncludedTxSeq(n) ==> apply_op(v, op).last_included_tx_seq == n,
        op matches SpecBatchOp::SetTxSeq(n) ==> apply_op(v, op).tx_seq == n,
        op matches SpecBatchOp::PutBlockHeightIndex(n, h) ==> apply_op(v, op).height_index[n] == h,
{
}

/// A write under one key leaves every other key as it was.
pub proof fn law_writes_are_independent(v: StoreView, op: SpecBatchOp, a: Address, h: p::Hash, id: [u8; 32])
    ensures
        !(op matches SpecBatchOp::PutAccount(a2, _) && a2 == a) ==> apply_op(v, op).account(a) == v.account(a),
        !(op matches SpecBatchOp::PutBlock(h2, _) && h2 == h) ==> apply_op(v, op).block(h) == v.block(h),
        !(op matches SpecBatchOp::PutTransaction(h2, _) && h2 == h) ==> apply_op(v, op).transaction(h)
            == v.transaction(h),
        !(op matches SpecBatchOp::PutReceipt(id2, _) && id2 == id) ==> apply_op(v, op).receipt(id) == v.receipt(id),
        !(op matches SpecBatchOp::PutTask(id2, _) && id2 == id) ==> apply_op(v, op).task(id) == v.task(id),
{
}

/// The latest height never decreases, and after a batch it is at least
/// every height the batch indexed.
pub proof fn law_latest_height_monotone(v: StoreView, ops: Seq<SpecBatchOp>)
    ensures
        apply_ops(v, ops).latest_height >= v.latest_height,
        forall|k: int|
            0 <= k < ops.len() ==> (#[trigger] ops[k] matches SpecBatchOp::PutBlockHeightIndex(n, _)
                ==> apply_ops(v, ops).latest_height >= n),
    decreases ops.len(),
{
    if ops.len() > 0 {
        law_latest_height_monotone(v, ops.drop_last());
        assert forall|k: int| 0 <= k < ops.len() implies (#[trigger] ops[k] matches SpecBatchOp::PutBlockHeightIndex(
            n,
            _,
        ) ==> apply_ops(v, ops).latest_height >= n) by {
            if k < ops.len() - 1 {
                assert(ops.drop_last()[k] == ops[k]);
            }
        }
    }
}

/// Applying a batch in two parts is applying it whole.
pub proof fn lemma_apply_ops_append(v: StoreView, a: Seq<SpecBatchOp>, b: Seq<SpecBatchOp>)
    ensures
        apply_ops(v, a + b) == apply_ops(apply_ops(v, a), b),
    decreases b.len(),
{
    if b.len() == 0 {
        assert(a + b =~= a);
    } else {
        assert((a + b).drop_last() =~= a + b.drop_last());
        lemma_apply_ops_append(v, a, b.drop_last());
    }
}

/// Moving money between two accounts changes neither their total nor
/// anything but the balances.
pub proof fn law_transfer_conserves_balance(from: Account, to: Account, amount: u128)
    ensures
        Account::spec_transfer(from, to, amount) matches Some((f, t)) ==> {
            &&& f.balance + t.balance == from.balance + to.balance
            &&& f.nonce == from.nonce && t.nonce == to.nonce
            &&& f.address == from.address && t.address == to.address
        },
        Account::spec_transfer(from, to, amount) is None <==> (from.balance < amount || to.balance + amount
            > u128::MAX),
{
}

/// Accepting a nonce consumes exactly that nonce.
pub proof fn law_nonce_advances_by_one(a: Account, nonce: u64)
    ensures
        a.spec_after_nonce(nonce) matches Some(b) ==> b.nonce == a.nonce + 1 && nonce == a.nonce
            && b.balance == a.balance,
        a.spec_after_nonce(nonce) is None <==> (nonce != a.nonce || a.nonce == u64::MAX),
{
}

/// Pending state of one sender is untouched by another sender's entries.
pub proof fn law_sender_isolation(v: Seq<PoolEntry>, e: PoolEntry, s: Address, committed: u64)
    requires
        pool_wf(v.push(e)),
        e.1.sender != s,
    ensures
        spec_sender_pending(v.push(e), s, committed) == spec_sender_pending(v, s, committed),
{
    let w = v.push(e);
    assert forall|n: u64| has_sender_nonce(w, s, n) == has_sender_nonce(v, s, n) by {
        if has_sender_nonce(w, s, n) {
            let i = choose|i: int| 0 <= i < w.len() && (#[trigger] w[i]).1.sender == s && w[i].1.nonce == n;
            assert(v[i] == w[i]);
        }
        if has_sender_nonce(v, s, n) {
            let i = choose|i: int| 0 <= i < v.len() && (#[trigger] v[i]).1.sender == s && v[i].1.nonce == n;
            assert(w[i] == v[i]);
        }
    }
    assert forall|n: int| amount_at(w, s, n) == amount_at(v, s, n) by {
        if has_sender_nonce(v, s, n as u64) && 0 <= n <= u64::MAX {
            let iw = choose|i: int| 0 <= i < w.len() && (#[trigger] w[i]).1.sender == s && w[i].1.nonce == n as u64;
            let iv = choose|i: int| 0 <= i < v.len() && (#[trigger] v[i]).1.sender == s && v[i].1.nonce == n as u64;
            assert(iw < v.len());
            assert(w[iv] == v[iv]);
            if iw != iv {
                if iw < iv {
                    assert(compatible(w[iw], w[iv]));
                } else {
                    assert(compatible(w[iv], w[iw]));
                }
            }
        }
    }
    lemma_chain_end_same(v, w, s, committed as int);
    let end = chain_end(v, s, committed as int);
    lemma_chain_sum_same(v, w, s, committed as int, end);
    v.lemma_filter_push(e, |x: PoolEntry| x.1.sender == s);
}

proof fn lemma_chain_end_same(v: Seq<PoolEntry>, w: Seq<PoolEntry>, s: Address, n: int)
    requires
        forall|m: u64| has_sender_nonce(w, s, m) == has_sender_nonce(v, s, m),
    ensures
        chain_end(w, s, n) == chain_end(v, s, n),
    decreases 0x1_0000_0000_0000_0000 - n,
{
    if 0 <= n <= u64::MAX && has_sender_nonce(v, s, n as u64) {
        lemma_chain_end_same(v, w, s, n + 1);
    }
}

proof fn lemma_chain_sum_same(v: Seq<PoolEntry>, w: Seq<PoolEntry>, s: Address, from: int, to: int)
    requires
        forall|m: int| amount_at(w, s, m) == amount_at(v, s, m),
    ensures
        chain_sum(w, s, from, to) == chain_sum(v, s, from, to),
    decreases to - from,
{
    if to > from {
        lemma_chain_sum_same(v, w, s, from, to - 1);
        assert(amount_at(w, s, to - 1) == amount_at(v, s, to - 1));
    }
}

/// The nonce a sender is told to use next is never one already pending.
pub proof fn law_expected_nonce_is_free(v: Seq<PoolEntry>, s: Address, committed: u64)
    ensures
        spec_sender_pending(v, s, committed).expected_nonce matches Some(n) ==> !has_sender_nonce(v, s, n)
            && n >= committed,
{
    if chain_end(v, s, committed as int) <= u64::MAX {
        crate::mempool::lemma_chain_end_free(v, s, committed as int);
    }
}

/// Removing included transactions twice removes nothing more, and no
/// removed hash remains pending.
pub proof fn law_removal_is_idempotent(v: Seq<PoolEntry>, hashes: Seq<p::Hash>, h: p::Hash)
    ensures
        without_hashes(without_hashes(v, hashes), hashes) == without_hashes(v, hashes),
        hashes.contains(h) ==> !has_hash(without_hashes(v, hashes), h),
{
    let pred = |e: PoolEntry| !hashes.contains(e.0);
    let w = without_hashes(v, hashes);
    assert forall|i: int| 0 <= i < w.len() implies pred(#[trigger] w[i]) by {
        v.lemma_filter_pred(pred, i);
    }
    lemma_filter_all(w, pred);
    if hashes.contains(h) && has_hash(w, h) {
        let i = choose|i: int| 0 <= i < w.len() && (#[trigger] w[i]).0 == h;
        assert(pred(w[i]));
    }
}

proof fn lemma_filter_all(s: Seq<PoolEntry>, pred: spec_fn(PoolEntry) -> bool)
    requires
        forall|i: int| 0 <= i < s.len() ==> pred(#[trigger] s[i]),
    ensures
        s.filter(pred) == s,
    decreases s.len(),
{
    reveal_with_fuel(Seq::filter, 1);
    if s.len() > 0 {
        lemma_filter_all(s.drop_last(), pred);
        assert(s.drop_last().push(s.last()) =~= s);
    } else {
        assert(s.filter(pred) =~= s);
    }
}

/// Ensuring genesis twice is ensuring it once.
pub proof fn law_genesis_idempotent(st: StoreView)
    ensures
        genesis_state(genesis_state(st)) == genesis_state(st),
        genesis_state(st).block_at(0) is Some,
{
    if st.block_at(0) is None {
        let gh = spec_block_hash(genesis_block());
        let s1 = apply_op(apply_op(st, SpecBatchOp::PutBlock(gh, genesis_block())), SpecBatchOp::PutBlockHeightIndex(0, gh));
        assert(s1.block_at(0) == Some(genesis_block()));
    }
}

} // verus!
