//! What accepting a block means for the store: the block becomes the tip,
//! and no task id is committed or anchored twice.

use vstd::prelude::*;

use crate::backend::produce_outcome;
use crate::crypto::{spec_block_hash, spec_transactions_root};
use crate::mempool::PoolEntry;
use crate::laws::lemma_apply_ops_append;
use crate::model::{SpecBlock, SpecTransaction};
use crate::rules::{
    block_outcome, closing_ops, run_txs, spec_task_envelope, spec_type_payload, step_anchor, step_task,
    step_transfer, tx_step, BlockRun, PayloadKind,
};
use crate::storage::{apply_ops, SpecBatchOp, StoreView};

verus! {

/// A write a transaction makes: none stores a block, indexes a height or
/// moves a sequence counter.
pub open spec fn is_tx_write(op: SpecBatchOp) -> bool {
    match op {
        SpecBatchOp::PutTransaction(..) => true,
        SpecBatchOp::PutTxSeqIndex(..) => true,
        SpecBatchOp::PutAccount(..) => true,
        SpecBatchOp::PutReceipt(..) => true,
        SpecBatchOp::PutTask(..) => true,
        _ => false,
    }
}

/// The task id a write anchors a receipt under, if it is such a write.
pub open spec fn receipt_key(op: SpecBatchOp) -> Option<[u8; 32]> {
    match op {
        SpecBatchOp::PutReceipt(id, _) => Some(id),
        _ => None,
    }
}

/// The task id a write commits a compute task under, if it is such a write.
pub open spec fn task_key(op: SpecBatchOp) -> Option<[u8; 32]> {
    match op {
        SpecBatchOp::PutTask(id, _) => Some(id),
        _ => None,
    }
}

/// What validation keeps of the writes it has gathered so far.
spec fn run_inv(st: StoreView, run: BlockRun) -> bool {
    &&& forall|k: int| 0 <= k < run.ops.len() ==> is_tx_write(#[trigger] run.ops[k])
    &&& forall|k: int|
        0 <= k < run.ops.len() ==> (#[trigger] receipt_key(run.ops[k]) matches Some(id) ==> {
            &&& run.anchored.contains(id)
            &&& !st.receipts.contains_key(id)
            &&& (st.tasks.contains_key(id) || exists|j: int| 0 <= j < k && #[trigger] task_key(run.ops[j]) == Some(id))
        })
    &&& forall|k1: int, k2: int|
        0 <= k1 < k2 < run.ops.len() && (#[trigger] receipt_key(run.ops[k1])) is Some ==> receipt_key(run.ops[k1])
            != #[trigger] receipt_key(run.ops[k2])
    &&& forall|k: int|
        0 <= k < run.ops.len() ==> (#[trigger] task_key(run.ops[k]) matches Some(id) ==> {
            &&& run.tasks.contains_key(id)
            &&& !st.tasks.contains_key(id)
        })
    &&& forall|k1: int, k2: int|
        0 <= k1 < k2 < run.ops.len() && (#[trigger] task_key(run.ops[k1])) is Some ==> task_key(run.ops[k1])
            != #[trigger] task_key(run.ops[k2])
    &&& forall|id: [u8; 32]|
        #[trigger] run.tasks.contains_key(id) ==> exists|j: int| 0 <= j < run.ops.len() && #[trigger] task_key(run.ops[j]) == Some(id)
}

proof fn lemma_start_inv(st: StoreView)
    ensures
        run_inv(st, BlockRun::start(st)),
{
}

/// Extending the gathered writes by `tail` keeps the invariant when the
/// tail anchors and commits only fresh ids.
proof fn lemma_extend_inv(st: StoreView, run: BlockRun, run2: BlockRun, tail: Seq<SpecBatchOp>)
    requires
        run_inv(st, run),
        run2.ops == run.ops + tail,
        forall|k: int| 0 <= k < tail.len() ==> is_tx_write(#[trigger] tail[k]),
        forall|x: [u8; 32]| run.anchored.contains(x) ==> run2.anchored.contains(x),
        forall|x: [u8; 32]| run.tasks.contains_key(x) ==> run2.tasks.contains_key(x),
        forall|k: int|
            0 <= k < tail.len() ==> (#[trigger] receipt_key(tail[k]) matches Some(id) ==> {
                &&& run2.anchored.contains(id)
                &&& !run.anchored.contains(id)
                &&& !st.receipts.contains_key(id)
                &&& (st.tasks.contains_key(id) || run.tasks.contains_key(id))
            }),
        forall|k1: int, k2: int|
            0 <= k1 < k2 < tail.len() && (#[trigger] receipt_key(tail[k1])) is Some ==> receipt_key(tail[k1])
                != #[trigger] receipt_key(tail[k2]),
        forall|k: int|
            0 <= k < tail.len() ==> (#[trigger] task_key(tail[k]) matches Some(id) ==> {
                &&& run2.tasks.contains_key(id)
                &&& !run.tasks.contains_key(id)
                &&& !st.tasks.contains_key(id)
            }),
        forall|k1: int, k2: int|
            0 <= k1 < k2 < tail.len() && (#[trigger] task_key(tail[k1])) is Some ==> task_key(tail[k1])
                != #[trigger] task_key(tail[k2]),
        forall|x: [u8; 32]|
            #[trigger] run2.tasks.contains_key(x) ==> run.tasks.contains_key(x) || exists|j: int|
                0 <= j < tail.len() && #[trigger] task_key(tail[j]) == Some(x),
    ensures
        run_inv(st, run2),
{
    let n = run.ops.len() as int;
    let o = run2.ops;
    assert forall|k: int| 0 <= k < n implies o[k] == run.ops[k] by {}
    assert forall|k: int| n <= k < o.len() implies o[k] == tail[k - n] by {}
    assert forall|k: int| 0 <= k < o.len() implies is_tx_write(#[trigger] o[k]) by {
        if k >= n {
            assert(is_tx_write(tail[k - n]));
        }
    }
    assert forall|k: int|
        0 <= k < o.len() implies (#[trigger] receipt_key(o[k]) matches Some(id) ==> {
        &&& run2.anchored.contains(id)
        &&& !st.receipts.contains_key(id)
        &&& (st.tasks.contains_key(id) || exists|j: int| 0 <= j < k && #[trigger] task_key(o[j]) == Some(id))
    }) by {
        if let Some(id) = receipt_key(o[k]) {
            if k < n {
                assert(receipt_key(run.ops[k]) == Some(id));
                if !st.tasks.contains_key(id) {
                    let j = choose|j: int| 0 <= j < k && #[trigger] task_key(run.ops[j]) == Some(id);
                    assert(task_key(o[j]) == Some(id));
                }
            } else {
                assert(receipt_key(tail[k - n]) == Some(id));
                if !st.tasks.contains_key(id) {
                    assert(run.tasks.contains_key(id));
                    let j = choose|j: int| 0 <= j < run.ops.len() && #[trigger] task_key(run.ops[j]) == Some(id);
                    assert(task_key(o[j]) == Some(id));
                }
            }
        }
    }
    assert forall|k1: int, k2: int|
        0 <= k1 < k2 < o.len() && (#[trigger] receipt_key(o[k1])) is Some implies receipt_key(o[k1])
        != #[trigger] receipt_key(o[k2]) by {
        if k2 < n {
            assert(receipt_key(run.ops[k1]) != receipt_key(run.ops[k2]));
        } else if k1 < n {
            let a = receipt_key(run.ops[k1]).unwrap();
            assert(run.anchored.contains(a));
            if let Some(b) = receipt_key(tail[k2 - n]) {
                assert(!run.anchored.contains(b));
            }
        } else {
            assert(receipt_key(tail[k1 - n]) != receipt_key(tail[k2 - n]));
        }
    }
    assert forall|k: int|
        0 <= k < o.len() implies (#[trigger] task_key(o[k]) matches Some(id) ==> {
        &&& run2.tasks.contains_key(id)
        &&& !st.tasks.contains_key(id)
    }) by {
        if let Some(id) = task_key(o[k]) {
            if k < n {
                assert(task_key(run.ops[k]) == Some(id));
            } else {
                assert(task_key(tail[k - n]) == Some(id));
            }
        }
    }
    assert forall|k1: int, k2: int|
        0 <= k1 < k2 < o.len() && (#[trigger] task_key(o[k1])) is Some implies task_key(o[k1])
        != #[trigger] task_key(o[k2]) by {
        if k2 < n {
            assert(task_key(run.ops[k1]) != task_key(run.ops[k2]));
        } else if k1 < n {
            let a = task_key(run.ops[k1]).unwrap();
            assert(run.tasks.contains_key(a));
            if let Some(b) = task_key(tail[k2 - n]) {
                assert(!run.tasks.contains_key(b));
            }
        } else {
            assert(task_key(tail[k1 - n]) != task_key(tail[k2 - n]));
        }
    }
    assert forall|x: [u8; 32]| #[trigger] run2.tasks.contains_key(x) implies exists|j: int|
        0 <= j < o.len() && #[trigger] task_key(o[j]) == Some(x) by {
        if run.tasks.contains_key(x) {
            let j = choose|j: int| 0 <= j < run.ops.len() && #[trigger] task_key(run.ops[j]) == Some(x);
            assert(task_key(o[j]) == Some(x));
        } else {
            let j = choose|j: int| 0 <= j < tail.len() && #[trigger] task_key(tail[j]) == Some(x);
            assert(task_key(o[j + n]) == Some(x));
        }
    }
}

proof fn lemma_step_inv(st: StoreView, run: BlockRun, i: usize, tx: SpecTransaction)
    requires
        run_inv(st, run),
    ensures
        tx_step(st, run, i, tx) matches Ok(run2) ==> run_inv(st, run2),
{
    if let Ok(run2) = tx_step(st, run, i, tx) {
        let kind = spec_type_payload(tx).unwrap();
        let h = crate::crypto::spec_tx_hash(tx);
        if !st.transactions.contains_key(h) {
            let tail = run2.ops.subrange(run.ops.len() as int, run2.ops.len() as int);
            match kind {
                PayloadKind::Task(task) => {
                    assert(step_task(st, run, i, tx, h, task) is Ok);
                    let id = spec_task_envelope(tx.sender, task).unwrap();
                    assert(run2.ops == run.ops + tail);
                    assert(tail.len() == 4);
                    assert(task_key(tail[2]) == Some(id));
                    assert(run2.tasks == run.tasks.insert(id, task));
                    lemma_extend_inv(st, run, run2, tail);
                },
                PayloadKind::Anchor(r) => {
                    assert(step_anchor(st, run, i, tx, h, r) is Ok);
                    let id = r.task_id;
                    assert(run2.ops == run.ops + tail);
                    assert(tail.len() == 4);
                    assert(receipt_key(tail[2]) == Some(id));
                    assert(run2.anchored == run.anchored.push(id));
                    assert(run2.tasks == run.tasks);
                    assert(run2.anchored.contains(id)) by {
                        assert(run2.anchored[run.anchored.len() as int] == id);
                    }
                    assert forall|x: [u8; 32]| run.anchored.contains(x) implies run2.anchored.contains(x) by {
                        let a = choose|a: int| 0 <= a < run.anchored.len() && run.anchored[a] == x;
                        assert(run2.anchored[a] == x);
                    }
                    assert(st.tasks.contains_key(id) || run.tasks.contains_key(id));
                    lemma_extend_inv(st, run, run2, tail);
                },
                PayloadKind::Plain => {
                    assert(step_transfer(st, run, i, tx, h) is Ok);
                    assert(run2.ops == run.ops + tail);
                    assert(tail.len() == 4);
                    assert(run2.anchored == run.anchored);
                    assert(run2.tasks == run.tasks);
                    lemma_extend_inv(st, run, run2, tail);
                },
            }
        }
    }
}

proof fn lemma_run_inv(st: StoreView, txs: Seq<SpecTransaction>)
    ensures
        run_txs(st, txs) matches Ok(run) ==> run_inv(st, run),
    decreases txs.len(),
{
    if txs.len() == 0 {
        lemma_start_inv(st);
    } else {
        lemma_run_inv(st, txs.drop_last());
        if let Ok(run) = run_txs(st, txs.drop_last()) {
            lemma_step_inv(st, run, (txs.len() - 1) as usize, txs.last());
        }
    }
}

/// Writes that transactions make leave the blocks, the height index and
/// the sequence counters alone.
proof fn lemma_tx_writes_keep(v: StoreView, ops: Seq<SpecBatchOp>)
    requires
        forall|k: int| 0 <= k < ops.len() ==> is_tx_write(#[trigger] ops[k]),
    ensures
        apply_ops(v, ops).blocks == v.blocks,
        apply_ops(v, ops).height_index == v.height_index,
        apply_ops(v, ops).latest_height == v.latest_height,
        apply_ops(v, ops).tx_seq == v.tx_seq,
        apply_ops(v, ops).last_included_tx_seq == v.last_included_tx_seq,
    decreases ops.len(),
{
    if ops.len() > 0 {
        assert forall|k: int| 0 <= k < ops.drop_last().len() implies is_tx_write(#[trigger] ops.drop_last()[k]) by {
            assert(ops.drop_last()[k] == ops[k]);
        }
        lemma_tx_writes_keep(v, ops.drop_last());
        assert(is_tx_write(ops[ops.len() - 1]));
    }
}

/// Without a write under `id`, the receipt and the task under `id` stay.
proof fn lemma_id_untouched(v: StoreView, ops: Seq<SpecBatchOp>, id: [u8; 32])
    ensures
        (forall|k: int| 0 <= k < ops.len() ==> #[trigger] receipt_key(ops[k]) != Some(id)) ==> apply_ops(v, ops).receipt(id)
            == v.receipt(id),
        (forall|k: int| 0 <= k < ops.len() ==> #[trigger] task_key(ops[k]) != Some(id)) ==> apply_ops(v, ops).task(id)
            == v.task(id),
    decreases ops.len(),
{
    if ops.len() > 0 {
        let d = ops.drop_last();
        lemma_id_untouched(v, d, id);
        if forall|k: int| 0 <= k < ops.len() ==> #[trigger] receipt_key(ops[k]) != Some(id) {
            assert forall|k: int| 0 <= k < d.len() implies #[trigger] receipt_key(d[k]) != Some(id) by {
                assert(d[k] == ops[k]);
            }
            assert(receipt_key(ops[ops.len() - 1]) != Some(id));
        }
        if forall|k: int| 0 <= k < ops.len() ==> #[trigger] task_key(ops[k]) != Some(id) {
            assert forall|k: int| 0 <= k < d.len() implies #[trigger] task_key(d[k]) != Some(id) by {
                assert(d[k] == ops[k]);
            }
            assert(task_key(ops[ops.len() - 1]) != Some(id));
        }
    }
}

/// A task written anywhere in a batch is there after it.
proof fn lemma_task_lands(v: StoreView, ops: Seq<SpecBatchOp>, id: [u8; 32], j: int)
    requires
        0 <= j < ops.len(),
        task_key(ops[j]) == Some(id),
    ensures
        apply_ops(v, ops).tasks.contains_key(id),
    decreases ops.len(),
{
    if j < ops.len() - 1 {
        assert(ops.drop_last()[j] == ops[j]);
        lemma_task_lands(v, ops.drop_last(), id, j);
    }
}

/// The writes that close a block: the counters, the block, its height.
proof fn lemma_closing(s1: StoreView, b: SpecBlock, seq: u64, bh: crate::primitives::Hash)
    ensures
        ({
            let c = closing_ops(b, seq, bh);
            let s2 = apply_ops(s1, c);
            &&& forall|k: int| 0 <= k < c.len() ==> #[trigger] receipt_key(c[k]) is None && task_key(c[k]) is None
            &&& s2.receipts == s1.receipts
            &&& s2.tasks == s1.tasks
            &&& s2.blocks == s1.blocks.insert(bh, b)
            &&& s2.height_index == s1.height_index.insert(b.header.height, bh)
            &&& s2.latest_height == (if b.header.height > s1.latest_height { b.header.height } else { s1.latest_height })
            &&& b.transactions.len() > 0 ==> s2.tx_seq == seq && s2.last_included_tx_seq == seq
            &&& b.transactions.len() == 0 ==> s2.tx_seq == s1.tx_seq && s2.last_included_tx_seq == s1.last_included_tx_seq
        }),
{
    let c = closing_ops(b, seq, bh);
    reveal_with_fuel(apply_ops, 5);
    let tail = seq![SpecBatchOp::PutBlock(bh, b), SpecBatchOp::PutBlockHeightIndex(b.header.height, bh)];
    if b.transactions.len() > 0 {
        let head = seq![SpecBatchOp::SetTxSeq(seq), SpecBatchOp::SetLastIncludedTxSeq(seq)];
        assert(c =~= head + tail);
        assert(c.drop_last().drop_last().drop_last().drop_last() =~= Seq::<SpecBatchOp>::empty());
        assert(c.drop_last().drop_last().drop_last() =~= seq![SpecBatchOp::SetTxSeq(seq)]);
        assert(c.drop_last().drop_last() =~= head);
        assert(c.drop_last() =~= head.push(SpecBatchOp::PutBlock(bh, b)));
    } else {
        assert(c =~= tail);
        assert(c.drop_last().drop_last() =~= Seq::<SpecBatchOp>::empty());
        assert(c.drop_last() =~= seq![SpecBatchOp::PutBlock(bh, b)]);
    }
}

/// An accepted block extends the chain by one: it hangs off the stored
/// tip, carries the root of its own transactions, is stored under the
/// hash that is returned, and becomes the new tip. A block with
/// transactions leaves both sequence counters equal; an empty one moves
/// neither.
pub proof fn law_accepted_block_becomes_tip(st: StoreView, b: SpecBlock)
    requires
        st.latest_height < u64::MAX,
    ensures
        block_outcome(st, b) matches Ok((h, ops)) ==> {
            let s2 = apply_ops(st, ops);
            &&& h == spec_block_hash(b)
            &&& b.header.height == st.latest_height + 1
            &&& st.block_at(st.latest_height) matches Some(parent) && b.header.parent_hash == spec_block_hash(parent)
            &&& b.header.transactions_root == spec_transactions_root(b.transactions)
            &&& s2.latest_height == b.header.height
            &&& s2.block_at(b.header.height) == Some(b)
            &&& s2.block(h) == Some(b)
            &&& b.transactions.len() > 0 ==> s2.tx_seq == s2.last_included_tx_seq
            &&& b.transactions.len() == 0 ==> s2.tx_seq == st.tx_seq && s2.last_included_tx_seq
                == st.last_included_tx_seq
        },
{
    if let Ok((h, ops)) = block_outcome(st, b) {
        let run = run_txs(st, b.transactions).unwrap();
        lemma_run_inv(st, b.transactions);
        lemma_tx_writes_keep(st, run.ops);
        let s1 = apply_ops(st, run.ops);
        lemma_closing(s1, b, run.seq, h);
        lemma_apply_ops_append(st, run.ops, closing_ops(b, run.seq, h));
    }
}

/// Every task id is committed at most once and anchored at most once over
/// the life of the chain: an accepted block writes no receipt or task
/// under an id the store already has, writes each id at most once, and
/// anchors only receipts that answer a task committed before them,
/// in earlier blocks or earlier in the same block.
pub proof fn law_accepted_block_anchors_once(st: StoreView, b: SpecBlock)
    ensures
        block_outcome(st, b) matches Ok((h, ops)) ==> {
            let s2 = apply_ops(st, ops);
            &&& forall|id: [u8; 32]| #[trigger] st.receipts.contains_key(id) ==> s2.receipt(id) == st.receipt(id)
            &&& forall|id: [u8; 32]| #[trigger] st.tasks.contains_key(id) ==> s2.task(id) == st.task(id)
            &&& forall|k1: int, k2: int|
                0 <= k1 < k2 < ops.len() && (#[trigger] receipt_key(ops[k1])) is Some ==> receipt_key(ops[k1])
                    != #[trigger] receipt_key(ops[k2])
            &&& forall|k1: int, k2: int|
                0 <= k1 < k2 < ops.len() && (#[trigger] task_key(ops[k1])) is Some ==> task_key(ops[k1])
                    != #[trigger] task_key(ops[k2])
            &&& forall|k: int|
                0 <= k < ops.len() ==> (#[trigger] receipt_key(ops[k]) matches Some(id) ==> {
                    &&& st.tasks.contains_key(id) || exists|j: int| 0 <= j < k && #[trigger] task_key(ops[j]) == Some(id)
                    &&& s2.tasks.contains_key(id)
                })
        },
{
    if let Ok((h, ops)) = block_outcome(st, b) {
        let run = run_txs(st, b.transactions).unwrap();
        lemma_run_inv(st, b.transactions);
        let s1 = apply_ops(st, run.ops);
        let c = closing_ops(b, run.seq, h);
        lemma_closing(s1, b, run.seq, h);
        lemma_apply_ops_append(st, run.ops, c);
        let s2 = apply_ops(st, ops);
        let n = run.ops.len() as int;
        assert(ops == run.ops + c);
        assert forall|k: int| 0 <= k < n implies ops[k] == run.ops[k] by {}
        assert forall|k: int| n <= k < ops.len() implies ops[k] == c[k - n] by {}
        assert forall|id: [u8; 32]| #[trigger] st.receipts.contains_key(id) implies s2.receipt(id) == st.receipt(id) by {
            assert forall|k: int| 0 <= k < n implies #[trigger] receipt_key(run.ops[k]) != Some(id) by {}
            lemma_id_untouched(st, run.ops, id);
        }
        assert forall|id: [u8; 32]| #[trigger] st.tasks.contains_key(id) implies s2.task(id) == st.task(id) by {
            assert forall|k: int| 0 <= k < n implies #[trigger] task_key(run.ops[k]) != Some(id) by {}
            lemma_id_untouched(st, run.ops, id);
        }
        assert forall|k1: int, k2: int|
            0 <= k1 < k2 < ops.len() && (#[trigger] receipt_key(ops[k1])) is Some implies receipt_key(ops[k1])
            != #[trigger] receipt_key(ops[k2]) by {
            assert(k1 < n);
            if k2 < n {
                assert(receipt_key(run.ops[k1]) != receipt_key(run.ops[k2]));
            } else {
                assert(receipt_key(c[k2 - n]) is None);
            }
        }
        assert forall|k1: int, k2: int|
            0 <= k1 < k2 < ops.len() && (#[trigger] task_key(ops[k1])) is Some implies task_key(ops[k1])
            != #[trigger] task_key(ops[k2]) by {
            assert(k1 < n);
            if k2 < n {
                assert(task_key(run.ops[k1]) != task_key(run.ops[k2]));
            } else {
                assert(task_key(c[k2 - n]) is None);
            }
        }
        assert forall|k: int|
            0 <= k < ops.len() implies (#[trigger] receipt_key(ops[k]) matches Some(id) ==> {
            &&& st.tasks.contains_key(id) || exists|j: int| 0 <= j < k && #[trigger] task_key(ops[j]) == Some(id)
            &&& s2.tasks.contains_key(id)
        }) by {
            if let Some(id) = receipt_key(ops[k]) {
                assert(k < n);
                assert(receipt_key(run.ops[k]) == Some(id));
                if st.tasks.contains_key(id) {
                    lemma_id_untouched(st, run.ops, id);
                    assert forall|m: int| 0 <= m < n implies #[trigger] task_key(run.ops[m]) != Some(id) by {}
                } else {
                    let j = choose|j: int| 0 <= j < k && #[trigger] task_key(run.ops[j]) == Some(id);
                    assert(task_key(ops[j]) == Some(id));
                    lemma_task_lands(st, run.ops, id, j);
                }
            }
        }
    }
}

/// A block a producer builds is one every node at the same state accepts,
/// with the same hash.
pub proof fn law_produced_block_revalidates(st: StoreView, pool: Seq<PoolEntry>, producer: bool, timestamp: u64)
    ensures
        produce_outcome(st, pool, producer, timestamp) matches Ok((h, b)) ==> block_outcome(st, b) matches Ok(
            (h2, _),
        ) && h2 == h,
{
}

} // verus!
