//! The on-disk layout of the persistent store: which column family each
//! batch operation writes, under which key, with which bytes, and the
//! `latest_height` bookkeeping that a batch adds at its end.

use vstd::prelude::*;
use vstd::bytes::{spec_u64_to_le_bytes, u64_to_le_bytes};

use crate::codec::{
    append_array32, block_encodable, enc_account, enc_block, enc_tx, encode_account, encode_block,
    encode_transaction, tx_encodable,
};
use crate::model::{Account, SpecBlock, SpecTransaction};
use crate::primitives as p;
use crate::primitives::{Address, Duplicate};
use crate::storage::{apply_op, apply_ops, ops_view, BatchOp, SpecBatchOp, StoreView};

verus! {

/// A column family of the persistent store.
#[derive(Clone, Copy, Debug, PartialEq, Eq, Hash, Structural)]
pub enum ColumnFamily {
    Accounts,
    Blocks,
    Transactions,
    Meta,
    HeightIndex,
    TxSeqIndex,
    Receipts,
    Tasks,
}

impl ColumnFamily {
    /// The family's name in the database.
    pub open spec fn spec_name(self) -> Seq<char> {
        match self {
            ColumnFamily::Accounts => "accounts"@,
            ColumnFamily::Blocks => "blocks"@,
            ColumnFamily::Transactions => "transactions"@,
            ColumnFamily::Meta => "meta"@,
            ColumnFamily::HeightIndex => "height_index"@,
            ColumnFamily::TxSeqIndex => "tx_seq_index"@,
            ColumnFamily::Receipts => "receipts"@,
            ColumnFamily::Tasks => "tasks"@,
        }
    }

    /// The family's name in the database.
    pub fn name(&self) -> (r: &'static str)
        ensures
            r@ == self.spec_name(),
    {
        match self {
            ColumnFamily::Accounts => "accounts",
            ColumnFamily::Blocks => "blocks",
            ColumnFamily::Transactions => "transactions",
            ColumnFamily::Meta => "meta",
            ColumnFamily::HeightIndex => "height_index",
            ColumnFamily::TxSeqIndex => "tx_seq_index",
            ColumnFamily::Receipts => "receipts",
            ColumnFamily::Tasks => "tasks",
        }
    }
}

/// Every family a batch writes is one the schema knows.
pub proof fn law_families_known(cf: ColumnFamily)
    ensures
        crate::schema::known_cfs().contains(cf.spec_name()),
{
    let k = crate::schema::known_cfs();
    match cf {
        ColumnFamily::Accounts => assert(k[1] == cf.spec_name()),
        ColumnFamily::Blocks => assert(k[2] == cf.spec_name()),
        ColumnFamily::Transactions => assert(k[3] == cf.spec_name()),
        ColumnFamily::Meta => assert(k[4] == cf.spec_name()),
        ColumnFamily::HeightIndex => assert(k[5] == cf.spec_name()),
        ColumnFamily::TxSeqIndex => assert(k[6] == cf.spec_name()),
        ColumnFamily::Receipts => assert(k[7] == cf.spec_name()),
        ColumnFamily::Tasks => assert(k[8] == cf.spec_name()),
    }
}

/// One write of a batch: column family, key, value.
pub type SpecPut = (ColumnFamily, Seq<u8>, Seq<u8>);

/// The eight big-endian bytes of `x`.
pub open spec fn be8(x: u64) -> Seq<u8> {
    spec_u64_to_le_bytes(x).reverse()
}

/// The meta key `latest_height`.
pub open spec fn latest_height_key() -> Seq<u8> {
    seq![108u8, 97, 116, 101, 115, 116, 95, 104, 101, 105, 103, 104, 116]
}

/// The meta key `tx_seq`.
pub open spec fn tx_seq_key() -> Seq<u8> {
    seq![116u8, 120, 95, 115, 101, 113]
}

/// The meta key `last_included_tx_seq`.
pub open spec fn last_included_key() -> Seq<u8> {
    seq![108u8, 97, 115, 116, 95, 105, 110, 99, 108, 117, 100, 101, 100, 95, 116, 120, 95, 115, 101, 113]
}

/// The write that one batch operation makes.
pub open spec fn op_put(op: SpecBatchOp) -> SpecPut {
    match op {
        SpecBatchOp::PutAccount(a, acc) => (ColumnFamily::Accounts, a.0@, enc_account(acc)),
        SpecBatchOp::PutBlock(h, b) => (ColumnFamily::Blocks, h.0@, enc_block(b)),
        SpecBatchOp::PutTransaction(h, t) => (ColumnFamily::Transactions, h.0@, enc_tx(t)),
        SpecBatchOp::PutBlockHeightIndex(n, h) => (ColumnFamily::HeightIndex, be8(n), h.0@),
        SpecBatchOp::PutTxSeqIndex(n, h) => (ColumnFamily::TxSeqIndex, be8(n), h.0@),
        SpecBatchOp::SetTxSeq(n) => (ColumnFamily::Meta, tx_seq_key(), be8(n)),
        SpecBatchOp::SetLastIncludedTxSeq(n) => (ColumnFamily::Meta, last_included_key(), be8(n)),
        SpecBatchOp::PutReceipt(id, b) => (ColumnFamily::Receipts, id@, b),
        SpecBatchOp::PutTask(id, b) => (ColumnFamily::Tasks, id@, b),
    }
}

/// The greatest height that `ops` index, if they index any.
pub open spec fn max_indexed(ops: Seq<SpecBatchOp>) -> Option<u64>
    decreases ops.len(),
{
    if ops.len() == 0 {
        None
    } else {
        let m = max_indexed(ops.drop_last());
        match ops.last() {
            SpecBatchOp::PutBlockHeightIndex(n, _) => match m {
                Some(h) => if h >= n { Some(h) } else { Some(n) },
                None => Some(n),
            },
            _ => m,
        }
    }
}

/// The writes of the operations themselves, one each, in order.
pub open spec fn own_puts(ops: Seq<SpecBatchOp>) -> Seq<SpecPut> {
    Seq::new(ops.len(), |i: int| op_put(ops[i]))
}

/// `current` raised to the greatest indexed height, when that is above it.
pub open spec fn raised(current: u64, m: Option<u64>) -> u64 {
    match m {
        Some(h) => if h > current { h } else { current },
        None => current,
    }
}

/// The writes of a batch: one per operation, in order, then the new
/// `latest_height` when the batch indexes a height above `current_latest`.
pub open spec fn batch_puts(ops: Seq<SpecBatchOp>, current_latest: u64) -> Seq<SpecPut> {
    let own = own_puts(ops);
    match max_indexed(ops) {
        Some(h) => if h > current_latest {
            own.push((ColumnFamily::Meta, latest_height_key(), be8(h)))
        } else {
            own
        },
        None => own,
    }
}

/// A key-value store after `puts`, in order; a later write to a key wins.
pub open spec fn replay(kv: Map<(ColumnFamily, Seq<u8>), Seq<u8>>, puts: Seq<SpecPut>) -> Map<
    (ColumnFamily, Seq<u8>),
    Seq<u8>,
>
    decreases puts.len(),
{
    if puts.len() == 0 {
        kv
    } else {
        let last = puts.last();
        replay(kv, puts.drop_last()).insert((last.0, last.1), last.2)
    }
}

/// A counter under a meta key: absent means 0.
pub open spec fn meta_holds(kv: Map<(ColumnFamily, Seq<u8>), Seq<u8>>, key: Seq<u8>, x: u64) -> bool {
    match kv.get((ColumnFamily::Meta, key)) {
        Some(b) => b == be8(x),
        None => x == 0,
    }
}

pub open spec fn enc_opt_account(o: Option<Account>) -> Option<Seq<u8>> {
    match o {
        Some(a) => Some(enc_account(a)),
        None => None,
    }
}

pub open spec fn enc_opt_block(o: Option<SpecBlock>) -> Option<Seq<u8>> {
    match o {
        Some(b) => Some(enc_block(b)),
        None => None,
    }
}

pub open spec fn enc_opt_tx(o: Option<SpecTransaction>) -> Option<Seq<u8>> {
    match o {
        Some(t) => Some(enc_tx(t)),
        None => None,
    }
}

pub open spec fn enc_opt_hash(o: Option<p::Hash>) -> Option<Seq<u8>> {
    match o {
        Some(h) => Some(h.0@),
        None => None,
    }
}

/// Everything but `latest_height` of `v` reads back from `kv`.
pub open spec fn holds_entries(kv: Map<(ColumnFamily, Seq<u8>), Seq<u8>>, v: StoreView) -> bool {
    &&& forall|a: Address| #[trigger] kv.get((ColumnFamily::Accounts, a.0@)) == enc_opt_account(v.account(a))
    &&& forall|h: p::Hash| #[trigger] kv.get((ColumnFamily::Blocks, h.0@)) == enc_opt_block(v.block(h))
    &&& forall|h: p::Hash| #[trigger] kv.get((ColumnFamily::Transactions, h.0@)) == enc_opt_tx(v.transaction(h))
    &&& forall|n: u64| #[trigger] kv.get((ColumnFamily::HeightIndex, be8(n))) == enc_opt_hash(v.height_index.get(n))
    &&& forall|n: u64| #[trigger] kv.get((ColumnFamily::TxSeqIndex, be8(n))) == enc_opt_hash(v.tx_hash_at(n))
    &&& forall|id: [u8; 32]| #[trigger] kv.get((ColumnFamily::Receipts, id@)) == v.receipt(id)
    &&& forall|id: [u8; 32]| #[trigger] kv.get((ColumnFamily::Tasks, id@)) == v.task(id)
    &&& meta_holds(kv, tx_seq_key(), v.tx_seq)
    &&& meta_holds(kv, last_included_key(), v.last_included_tx_seq)
}

/// `kv` lays out `v`: every read of the store answers from `kv` what `v`
/// holds.
pub open spec fn lays_out(kv: Map<(ColumnFamily, Seq<u8>), Seq<u8>>, v: StoreView) -> bool {
    &&& holds_entries(kv, v)
    &&& meta_holds(kv, latest_height_key(), v.latest_height)
}

proof fn lemma_be8_injective(x: u64, y: u64)
    requires
        be8(x) == be8(y),
    ensures
        x == y,
{
    vstd::bytes::lemma_auto_spec_u64_to_from_le_bytes();
    let a = spec_u64_to_le_bytes(x);
    let b = spec_u64_to_le_bytes(y);
    assert(a.len() == 8 && b.len() == 8);
    assert forall|i: int| 0 <= i < 8 implies a[i] == b[i] by {
        assert(be8(x)[7 - i] == a[i]);
        assert(be8(y)[7 - i] == b[i]);
    }
    assert(a =~= b);
}

proof fn lemma_be8_len(x: u64)
    ensures
        be8(x).len() == 8,
{
    vstd::bytes::lemma_auto_spec_u64_to_from_le_bytes();
    assert(spec_u64_to_le_bytes(x).len() == 8);
}

proof fn lemma_array_view_injective(a: [u8; 32], b: [u8; 32])
    requires
        a@ == b@,
    ensures
        a == b,
{
    broadcast use vstd::array::group_array_axioms;
    assert forall|i: int| 0 <= i < 32 implies a[i] == b[i] by {
        assert(a@[i] == b@[i]);
    }
    assert(a =~= b);
}

#[verifier::spinoff_prover]
/// One operation's write keeps the layout of everything but the latest
/// height, and leaves the `latest_height` key alone.
proof fn lemma_op_put_keeps_entries(kv: Map<(ColumnFamily, Seq<u8>), Seq<u8>>, v: StoreView, op: SpecBatchOp)
    requires
        holds_entries(kv, v),
    ensures
        holds_entries(kv.insert((op_put(op).0, op_put(op).1), op_put(op).2), apply_op(v, op)),
        op_put(op).0 == ColumnFamily::Meta ==> op_put(op).1 != latest_height_key(),
{
    let put = op_put(op);
    let kv2 = kv.insert((put.0, put.1), put.2);
    let v2 = apply_op(v, op);
    assert(latest_height_key().len() == 13);
    assert(tx_seq_key().len() == 6);
    assert(last_included_key().len() == 20);
    assert forall|k: (ColumnFamily, Seq<u8>)| k != (put.0, put.1) implies #[trigger] kv2.get(k) == kv.get(k) by {}
    match op {
        SpecBatchOp::PutAccount(a, acc) => {
            assert forall|x: Address| #[trigger] kv2.get((ColumnFamily::Accounts, x.0@)) == enc_opt_account(
                v2.account(x),
            ) by {
                if x.0@ == a.0@ {
                    lemma_array_view_injective(x.0, a.0);
                    assert(x == a);
                }
            }
        },
        SpecBatchOp::PutBlock(h, b) => {
            assert forall|x: p::Hash| #[trigger] kv2.get((ColumnFamily::Blocks, x.0@)) == enc_opt_block(
                v2.block(x),
            ) by {
                if x.0@ == h.0@ {
                    lemma_array_view_injective(x.0, h.0);
                    assert(x == h);
                }
            }
        },
        SpecBatchOp::PutTransaction(h, t) => {
            assert forall|x: p::Hash| #[trigger] kv2.get((ColumnFamily::Transactions, x.0@)) == enc_opt_tx(
                v2.transaction(x),
            ) by {
                if x.0@ == h.0@ {
                    lemma_array_view_injective(x.0, h.0);
                    assert(x == h);
                }
            }
        },
        SpecBatchOp::PutBlockHeightIndex(n, h) => {
            assert forall|m: u64| #[trigger] kv2.get((ColumnFamily::HeightIndex, be8(m))) == enc_opt_hash(
                v2.height_index.get(m),
            ) by {
                if be8(m) == be8(n) {
                    lemma_be8_injective(m, n);
                }
            }
        },
        SpecBatchOp::PutTxSeqIndex(n, h) => {
            assert forall|m: u64| #[trigger] kv2.get((ColumnFamily::TxSeqIndex, be8(m))) == enc_opt_hash(
                v2.tx_hash_at(m),
            ) by {
                if be8(m) == be8(n) {
                    lemma_be8_injective(m, n);
                }
            }
        },
        SpecBatchOp::SetTxSeq(n) => {},
        SpecBatchOp::SetLastIncludedTxSeq(n) => {},
        SpecBatchOp::PutReceipt(id, b) => {
            assert forall|x: [u8; 32]| #[trigger] kv2.get((ColumnFamily::Receipts, x@)) == v2.receipt(x) by {
                if x@ == id@ {
                    lemma_array_view_injective(x, id);
                    assert(x == id);
                }
            }
        },
        SpecBatchOp::PutTask(id, b) => {
            assert forall|x: [u8; 32]| #[trigger] kv2.get((ColumnFamily::Tasks, x@)) == v2.task(x) by {
                if x@ == id@ {
                    lemma_array_view_injective(x, id);
                    assert(x == id);
                }
            }
        },
    }
}

/// Writing the `latest_height` key keeps the layout of everything else.
proof fn lemma_latest_put_keeps_entries(kv: Map<(ColumnFamily, Seq<u8>), Seq<u8>>, v: StoreView, b: Seq<u8>)
    requires
        holds_entries(kv, v),
    ensures
        holds_entries(kv.insert((ColumnFamily::Meta, latest_height_key()), b), v),
{
    let kv2 = kv.insert((ColumnFamily::Meta, latest_height_key()), b);
    assert(latest_height_key().len() == 13);
    assert(tx_seq_key().len() == 6);
    assert(last_included_key().len() == 20);
    assert forall|k: (ColumnFamily, Seq<u8>)| k != (ColumnFamily::Meta, latest_height_key()) implies
        #[trigger] kv2.get(k) == kv.get(k) by {}
}

/// The operations' own writes lay out everything their effect changes,
/// except `latest_height`, which they raise and do not write.
proof fn lemma_own_puts(kv: Map<(ColumnFamily, Seq<u8>), Seq<u8>>, v: StoreView, ops: Seq<SpecBatchOp>)
    requires
        holds_entries(kv, v),
    ensures
        holds_entries(replay(kv, own_puts(ops)), apply_ops(v, ops)),
        replay(kv, own_puts(ops)).get((ColumnFamily::Meta, latest_height_key())) == kv.get(
            (ColumnFamily::Meta, latest_height_key()),
        ),
        apply_ops(v, ops).latest_height == raised(v.latest_height, max_indexed(ops)),
    decreases ops.len(),
{
    if ops.len() > 0 {
        let init = ops.drop_last();
        lemma_own_puts(kv, v, init);
        assert(own_puts(ops).drop_last() =~= own_puts(init));
        let before = replay(kv, own_puts(init));
        lemma_op_put_keeps_entries(before, apply_ops(v, init), ops.last());
    }
}

/// A batch written to the persistent store reads back as the batch's
/// effect: from a key-value store that lays out `v`, the batch's writes
/// for `ops`, with the latest height read before the batch, give a store
/// that lays out `apply_ops(v, ops)`.
pub proof fn law_batch_layout(kv: Map<(ColumnFamily, Seq<u8>), Seq<u8>>, v: StoreView, ops: Seq<SpecBatchOp>)
    requires
        lays_out(kv, v),
    ensures
        lays_out(replay(kv, batch_puts(ops, v.latest_height)), apply_ops(v, ops)),
{
    lemma_own_puts(kv, v, ops);
    let own = own_puts(ops);
    match max_indexed(ops) {
        Some(h) => {
            if h > v.latest_height {
                let put = (ColumnFamily::Meta, latest_height_key(), be8(h));
                assert(own.push(put).drop_last() =~= own);
                lemma_latest_put_keeps_entries(replay(kv, own), apply_ops(v, ops), be8(h));
            }
        },
        None => {},
    }
}

/// Whether the persistent store can encode what `op` writes.
pub open spec fn op_encodable(op: SpecBatchOp) -> bool {
    match op {
        SpecBatchOp::PutBlock(_, b) => block_encodable(b),
        SpecBatchOp::PutTransaction(_, t) => tx_encodable(t),
        _ => true,
    }
}

/// The values of a list of writes.
pub open spec fn puts_view(s: Seq<(ColumnFamily, Vec<u8>, Vec<u8>)>) -> Seq<SpecPut> {
    Seq::new(s.len(), |i: int| (s[i].0, s[i].1@, s[i].2@))
}

/// The eight big-endian bytes of `x`.
pub fn be_bytes(x: u64) -> (r: Vec<u8>)
    ensures
        r@ == be8(x),
{
    let le = u64_to_le_bytes(x);
    proof {
        lemma_be8_len(x);
    }
    let mut out: Vec<u8> = Vec::new();
    let mut i: usize = 8;
    while i > 0
        invariant
            0 <= i <= 8,
            le@ == spec_u64_to_le_bytes(x),
            le@.len() == 8,
            out@ == be8(x).subrange(0, 8 - i),
        decreases i,
    {
        i -= 1;
        out.push(le[i]);
        proof {
            assert(out@ =~= be8(x).subrange(0, 8 - i));
        }
    }
    proof {
        assert(be8(x).subrange(0, 8) =~= be8(x));
    }
    out
}

/// The bytes of the meta key `latest_height`.
pub fn latest_height_key_bytes() -> (r: Vec<u8>)
    ensures
        r@ == latest_height_key(),
{
    let r: Vec<u8> = vec![108u8, 97, 116, 101, 115, 116, 95, 104, 101, 105, 103, 104, 116];
    proof {
        assert(r@ =~= latest_height_key());
    }
    r
}

/// The bytes of the meta key `tx_seq`.
pub fn tx_seq_key_bytes() -> (r: Vec<u8>)
    ensures
        r@ == tx_seq_key(),
{
    let r: Vec<u8> = vec![116u8, 120, 95, 115, 101, 113];
    proof {
        assert(r@ =~= tx_seq_key());
    }
    r
}

/// The bytes of the meta key `last_included_tx_seq`.
pub fn last_included_key_bytes() -> (r: Vec<u8>)
    ensures
        r@ == last_included_key(),
{
    let r: Vec<u8> = vec![108u8, 97, 115, 116, 95, 105, 110, 99, 108, 117, 100, 101, 100, 95, 116, 120, 95, 115, 101, 113];
    proof {
        assert(r@ =~= last_included_key());
    }
    r
}

fn array_bytes(a: &[u8; 32]) -> (r: Vec<u8>)
    ensures
        r@ == a@,
{
    let mut out: Vec<u8> = Vec::new();
    append_array32(&mut out, a);
    proof {
        assert(out@ =~= a@);
    }
    out
}

/// The write that one batch operation makes: its column family, key and
/// value.
pub fn op_write(op: &BatchOp) -> (r: (ColumnFamily, Vec<u8>, Vec<u8>))
    requires
        op_encodable(op@),
    ensures
        (r.0, r.1@, r.2@) == op_put(op@),
{
    match op {
        BatchOp::PutAccount(a, acc) => (ColumnFamily::Accounts, array_bytes(&a.0), encode_account(acc)),
        BatchOp::PutBlock(h, b) => (ColumnFamily::Blocks, array_bytes(&h.0), encode_block(b)),
        BatchOp::PutTransaction(h, t) => (ColumnFamily::Transactions, array_bytes(&h.0), encode_transaction(t)),
        BatchOp::PutBlockHeightIndex(n, h) => (ColumnFamily::HeightIndex, be_bytes(*n), array_bytes(&h.0)),
        BatchOp::PutTxSeqIndex(n, h) => (ColumnFamily::TxSeqIndex, be_bytes(*n), array_bytes(&h.0)),
        BatchOp::SetTxSeq(n) => (ColumnFamily::Meta, tx_seq_key_bytes(), be_bytes(*n)),
        BatchOp::SetLastIncludedTxSeq(n) => (ColumnFamily::Meta, last_included_key_bytes(), be_bytes(*n)),
        BatchOp::PutReceipt(id, b) => (ColumnFamily::Receipts, array_bytes(id), b.duplicate()),
        BatchOp::PutTask(id, b) => (ColumnFamily::Tasks, array_bytes(id), b.duplicate()),
    }
}

/// The writes that commit `ops` in one atomic batch: each operation's
/// write, in order, then `latest_height` raised to the greatest indexed
/// height when that is above `current_latest`, the value read before the
/// batch.
pub fn rocks_puts(ops: &[BatchOp], current_latest: u64) -> (r: Vec<(ColumnFamily, Vec<u8>, Vec<u8>)>)
    requires
        forall|i: int| 0 <= i < ops@.len() ==> op_encodable(#[trigger] ops@[i]@),
    ensures
        puts_view(r@) == batch_puts(ops_view(ops@), current_latest),
{
    let ghost s = ops_view(ops@);
    let mut out: Vec<(ColumnFamily, Vec<u8>, Vec<u8>)> = Vec::new();
    let mut max: Option<u64> = None;
    let mut i: usize = 0;
    while i < ops.len()
        invariant
            0 <= i <= ops@.len(),
            s == ops_view(ops@),
            forall|j: int| 0 <= j < ops@.len() ==> op_encodable(#[trigger] ops@[j]@),
            puts_view(out@) == own_puts(s.take(i as int)),
            max == max_indexed(s.take(i as int)),
        decreases ops@.len() - i,
    {
        let w = op_write(&ops[i]);
        proof {
            assert(s.take(i + 1).drop_last() =~= s.take(i as int));
            assert(s.take(i + 1).last() == ops@[i as int]@);
        }
        if let BatchOp::PutBlockHeightIndex(n, _) = &ops[i] {
            max = match max {
                Some(h) => if h >= *n { Some(h) } else { Some(*n) },
                None => Some(*n),
            };
        }
        let ghost before = out@;
        out.push(w);
        i += 1;
        proof {
            assert(puts_view(before).len() == before.len());
            assert(own_puts(s.take(i - 1)).len() == i - 1);
            assert(before.len() == i - 1);
            assert(out@ == before.push(w));
            assert forall|j: int| 0 <= j < i implies #[trigger] puts_view(out@)[j] == own_puts(s.take(i as int))[j] by {
                if j < i - 1 {
                    assert(out@[j] == before[j]);
                    assert(puts_view(before)[j] == own_puts(s.take(i - 1))[j]);
                }
            }
            assert(puts_view(out@) =~= own_puts(s.take(i as int)));
        }
    }
    proof {
        assert(s.take(ops@.len() as int) =~= s);
    }
    if let Some(h) = max {
        if h > current_latest {
            out.push((ColumnFamily::Meta, latest_height_key_bytes(), be_bytes(h)));
            proof {
                assert(puts_view(out@) =~= own_puts(s).push((ColumnFamily::Meta, latest_height_key(), be8(h))));
            }
        }
    }
    out
}

} // verus!
