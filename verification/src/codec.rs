//! The canonical byte encoding of chain data (a SCALE layout): integers
//! little-endian, fixed arrays raw, byte vectors and lists behind a
//! compact length prefix, enum variants behind an index byte.

use vstd::prelude::*;
use vstd::bytes::{spec_u128_to_le_bytes, spec_u64_to_le_bytes, u128_to_le_bytes, u64_to_le_bytes};

use crate::model::{
    Account, Block, BlockHeader, ComputeTask, Receipt, SpecBlock, SpecComputeTask, SpecPayload, SpecReceipt,
    SpecTransaction, Transaction, TransactionPayload, TransactionType, txs_view,
};
use crate::primitives::Address;

verus! {

/// Largest length a compact length prefix can carry.
pub const MAX_COMPACT: usize = 0xffff_ffff;

/// Four little-endian bytes of `v` (taken modulo 2^32).
pub open spec fn le4(v: nat) -> Seq<u8> {
    seq![(v % 256) as u8, ((v / 256) % 256) as u8, ((v / 65536) % 256) as u8, ((v / 16777216) % 256) as u8]
}

/// The number whose little-endian bytes are the first four of `s`.
pub open spec fn unle4(s: Seq<u8>) -> nat {
    (s[0] + 256 * s[1] + 65536 * s[2] + 16777216 * s[3]) as nat
}

/// The compact encoding of a length `n <= u32::MAX`.
pub open spec fn enc_compact(n: nat) -> Seq<u8> {
    if n < 64 {
        seq![(4 * n) as u8]
    } else if n < 16384 {
        seq![((4 * n + 1) % 256) as u8, ((4 * n + 1) / 256) as u8]
    } else if n < 0x4000_0000 {
        le4(4 * n + 2)
    } else {
        seq![3u8] + le4(n)
    }
}

/// Decodes a compact length at the start of `s`: the value and the number
/// of bytes it occupies. Only the canonical (shortest) form is accepted.
pub open spec fn dec_compact(s: Seq<u8>) -> Option<(nat, nat)> {
    if s.len() < 1 {
        None
    } else {
        let b0 = s[0] as nat;
        if b0 % 4 == 0 {
            Some((b0 / 4, 1))
        } else if b0 % 4 == 1 {
            if s.len() < 2 {
                None
            } else {
                let x = (b0 + 256 * s[1]) / 4;
                if x > 63 { Some((x as nat, 2)) } else { None }
            }
        } else if b0 % 4 == 2 {
            if s.len() < 4 {
                None
            } else {
                let x = unle4(s) / 4;
                if x > 16383 { Some((x, 4)) } else { None }
            }
        } else {
            if b0 != 3 || s.len() < 5 {
                None
            } else {
                let x = unle4(s.skip(1));
                if x > 0x3fff_ffff { Some((x, 5)) } else { None }
            }
        }
    }
}

pub proof fn lemma_le4_roundtrip(v: nat)
    requires
        v < 0x1_0000_0000,
    ensures
        le4(v).len() == 4,
        unle4(le4(v)) == v,
{
    let b0 = v % 256;
    let q1 = v / 256;
    let b1 = q1 % 256;
    assert(q1 / 256 == v / 65536);
    assert((v / 65536) / 256 == v / 16777216);
    assert(v / 16777216 < 256);
    assert(v == b0 + 256 * q1);
    assert(q1 == b1 + 256 * (v / 65536));
    assert(v / 65536 == (v / 65536) % 256 + 256 * (v / 16777216));
}

pub proof fn lemma_unle4_canonical(s: Seq<u8>)
    requires
        s.len() >= 4,
    ensures
        unle4(s) < 0x1_0000_0000,
        le4(unle4(s)) == s.subrange(0, 4),
{
    let v = unle4(s);
    let a = s[0] as nat;
    let b = s[1] as nat;
    let c = s[2] as nat;
    let d = s[3] as nat;
    assert(v == a + 256 * (b + 256 * (c + 256 * d)));
    assert(v % 256 == a);
    assert(v / 256 == b + 256 * (c + 256 * d));
    assert((v / 256) % 256 == b);
    assert(v / 65536 == (v / 256) / 256);
    assert(v / 65536 == c + 256 * d);
    assert((v / 65536) % 256 == c);
    assert(v / 16777216 == (v / 65536) / 256);
    assert(v / 16777216 == d);
    assert(le4(v) =~= s.subrange(0, 4));
}

/// Decoding the compact encoding of `n`, followed by anything, gives `n`.
pub proof fn lemma_compact_roundtrip(n: nat, rest: Seq<u8>)
    requires
        n <= 0xffff_ffff,
    ensures
        dec_compact(enc_compact(n) + rest) == Some((n, enc_compact(n).len())),
        1 <= enc_compact(n).len() <= 5,
{
    let s = enc_compact(n) + rest;
    if n < 64 {
        assert(s[0] == (4 * n) as u8);
    } else if n < 16384 {
        let v = 4 * n + 1;
        assert(s[0] == (v % 256) as u8);
        assert(s[1] == (v / 256) as u8);
        assert(v == v % 256 + 256 * (v / 256));
        assert((v % 256) % 4 == 1);
    } else if n < 0x4000_0000 {
        let v = 4 * n + 2;
        lemma_le4_roundtrip(v);
        assert(s.subrange(0, 4) =~= le4(v));
        assert(unle4(s) == unle4(le4(v)));
        assert(s[0] as nat == v % 256);
        assert((v % 256) % 4 == 2);
    } else {
        lemma_le4_roundtrip(n);
        assert(s.skip(1).subrange(0, 4) =~= le4(n));
        assert(unle4(s.skip(1)) == unle4(le4(n)));
    }
}

/// A successful compact decode read exactly the canonical encoding.
pub proof fn lemma_compact_canonical(s: Seq<u8>)
    requires
        dec_compact(s) is Some,
    ensures
        ({
            let (n, k) = dec_compact(s)->0;
            &&& n <= 0xffff_ffff
            &&& k == enc_compact(n).len()
            &&& k <= s.len()
            &&& s.subrange(0, k as int) == enc_compact(n)
        }),
{
    let b0 = s[0] as nat;
    let (n, k) = dec_compact(s)->0;
    if b0 % 4 == 0 {
        assert(s.subrange(0, 1) =~= enc_compact(n));
    } else if b0 % 4 == 1 {
        let v = b0 + 256 * s[1];
        assert(v == 4 * n + 1);
        assert(v % 256 == b0);
        assert(v / 256 == s[1]);
        assert(s.subrange(0, 2) =~= enc_compact(n));
    } else if b0 % 4 == 2 {
        lemma_unle4_canonical(s);
        let v = unle4(s);
        assert(v % 256 == b0);
        assert(v == 4 * n + 2);
        assert(s.subrange(0, 4) =~= enc_compact(n));
    } else {
        lemma_unle4_canonical(s.skip(1));
        assert(s.skip(1).subrange(0, 4) =~= le4(n));
        assert(s.subrange(0, 5) =~= enc_compact(n));
    }
}

/// A byte vector behind its compact length.
pub open spec fn enc_bytes(s: Seq<u8>) -> Seq<u8> {
    enc_compact(s.len()) + s
}

pub open spec fn enc_u64(x: u64) -> Seq<u8> {
    spec_u64_to_le_bytes(x)
}

pub open spec fn enc_u128(x: u128) -> Seq<u8> {
    spec_u128_to_le_bytes(x)
}

pub open spec fn tx_type_index(t: TransactionType) -> u8 {
    match t {
        TransactionType::Transfer => 0,
        TransactionType::Stake => 1,
        TransactionType::ComputeTask => 2,
        TransactionType::AnchorReceipt => 3,
    }
}

/// The receipt fields that its executor signs (all but the signature).
pub open spec fn enc_receipt_unsigned(r: SpecReceipt) -> Seq<u8> {
    seq![r.version] + r.task_id@ + r.input_commitment@ + r.output_commitment@ + r.executor.0@
        + enc_bytes(r.metadata)
}

pub open spec fn enc_receipt(r: SpecReceipt) -> Seq<u8> {
    enc_receipt_unsigned(r) + r.signature@
}

pub open spec fn enc_task(t: SpecComputeTask) -> Seq<u8> {
    seq![t.version] + t.submitter.0@ + t.executor.0@ + t.salt@ + t.input_commitment@
        + enc_bytes(t.execution_spec)
}

pub open spec fn enc_payload(p: SpecPayload) -> Seq<u8> {
    match p {
        SpecPayload::Empty => seq![0u8],
        SpecPayload::AnchorReceipt(r) => seq![1u8] + enc_receipt(r),
        SpecPayload::ComputeTask(t) => seq![2u8] + enc_task(t),
    }
}

/// The bytes a transaction's sender signs: every field but the signature.
pub open spec fn enc_tx_unsigned(t: SpecTransaction) -> Seq<u8> {
    seq![tx_type_index(t.tx_type)] + t.sender.0@ + t.receiver.0@ + enc_u128(t.amount) + enc_u64(
        t.nonce,
    ) + enc_payload(t.payload)
}

pub open spec fn enc_tx(t: SpecTransaction) -> Seq<u8> {
    enc_tx_unsigned(t) + t.signature@
}

/// The transactions' encodings, one after another.
pub open spec fn enc_tx_items(s: Seq<SpecTransaction>) -> Seq<u8>
    decreases s.len(),
{
    if s.len() == 0 {
        Seq::empty()
    } else {
        enc_tx_items(s.drop_last()) + enc_tx(s.last())
    }
}

/// A list of transactions behind its compact length.
pub open spec fn enc_txs(s: Seq<SpecTransaction>) -> Seq<u8> {
    enc_compact(s.len()) + enc_tx_items(s)
}

pub open spec fn enc_header(h: BlockHeader) -> Seq<u8> {
    h.parent_hash.0@ + h.state_root.0@ + h.transactions_root.0@ + enc_u64(h.timestamp) + enc_u64(
        h.height,
    )
}

pub open spec fn enc_block(b: SpecBlock) -> Seq<u8> {
    enc_header(b.header) + enc_txs(b.transactions)
}

/// Whether every length in a value fits the compact prefix.
pub open spec fn receipt_encodable(r: SpecReceipt) -> bool {
    r.metadata.len() <= MAX_COMPACT
}

pub open spec fn task_encodable(t: SpecComputeTask) -> bool {
    t.execution_spec.len() <= MAX_COMPACT
}

pub open spec fn tx_encodable(t: SpecTransaction) -> bool {
    match t.payload {
        SpecPayload::Empty => true,
        SpecPayload::AnchorReceipt(r) => receipt_encodable(r),
        SpecPayload::ComputeTask(k) => task_encodable(k),
    }
}

pub open spec fn txs_encodable(s: Seq<SpecTransaction>) -> bool {
    &&& s.len() <= MAX_COMPACT
    &&& forall|i: int| 0 <= i < s.len() ==> tx_encodable(#[trigger] s[i])
}

pub open spec fn block_encodable(b: SpecBlock) -> bool {
    txs_encodable(b.transactions)
}

// ── Executable encoders ───────────────────────────────────────────────

/// Appends `src` to `out`.
pub fn append_slice(out: &mut Vec<u8>, src: &[u8])
    ensures
        final(out)@ == old(out)@ + src@,
{
    let mut i: usize = 0;
    while i < src.len()
        invariant
            0 <= i <= src.len(),
            out@ == old(out)@ + src@.subrange(0, i as int),
        decreases src.len() - i,
    {
        out.push(src[i]);
        i += 1;
        proof {
            assert(out@ =~= old(out)@ + src@.subrange(0, i as int));
        }
    }
    proof {
        assert(src@.subrange(0, src@.len() as int) =~= src@);
    }
}

pub fn append_array32(out: &mut Vec<u8>, a: &[u8; 32])
    ensures
        final(out)@ == old(out)@ + a@,
{
    let mut i: usize = 0;
    while i < 32
        invariant
            0 <= i <= 32,
            out@ == old(out)@ + a@.subrange(0, i as int),
        decreases 32 - i,
    {
        out.push(a[i]);
        i += 1;
        proof {
            assert(out@ =~= old(out)@ + a@.subrange(0, i as int));
        }
    }
    proof {
        assert(a@.subrange(0, 32) =~= a@);
    }
}

pub fn append_array64(out: &mut Vec<u8>, a: &[u8; 64])
    ensures
        final(out)@ == old(out)@ + a@,
{
    let mut i: usize = 0;
    while i < 64
        invariant
            0 <= i <= 64,
            out@ == old(out)@ + a@.subrange(0, i as int),
        decreases 64 - i,
    {
        out.push(a[i]);
        i += 1;
        proof {
            assert(out@ =~= old(out)@ + a@.subrange(0, i as int));
        }
    }
    proof {
        assert(a@.subrange(0, 64) =~= a@);
    }
}

/// Appends the compact encoding of `n`.
pub fn append_compact(out: &mut Vec<u8>, n: usize)
    requires
        n <= MAX_COMPACT,
    ensures
        final(out)@ == old(out)@ + enc_compact(n as nat),
{
    let ghost e = enc_compact(n as nat);
    if n < 64 {
        out.push((4 * n) as u8);
    } else if n < 16384 {
        let v: usize = 4 * n + 1;
        out.push((v % 256) as u8);
        out.push((v / 256) as u8);
    } else if n < 0x4000_0000 {
        let v: u64 = 4 * (n as u64) + 2;
        out.push((v % 256) as u8);
        out.push(((v / 256) % 256) as u8);
        out.push(((v / 65536) % 256) as u8);
        out.push(((v / 16777216) % 256) as u8);
    } else {
        let v: u64 = n as u64;
        out.push(3u8);
        out.push((v % 256) as u8);
        out.push(((v / 256) % 256) as u8);
        out.push(((v / 65536) % 256) as u8);
        out.push(((v / 16777216) % 256) as u8);
    }
    proof {
        assert(out@ =~= old(out)@ + e);
    }
}

/// Appends a byte vector behind its compact length.
pub fn append_bytes(out: &mut Vec<u8>, v: &Vec<u8>)
    requires
        v@.len() <= MAX_COMPACT,
    ensures
        final(out)@ == old(out)@ + enc_bytes(v@),
{
    append_compact(out, v.len());
    append_slice(out, v.as_slice());
    proof {
        assert(out@ =~= old(out)@ + enc_bytes(v@));
    }
}

pub fn append_u64(out: &mut Vec<u8>, x: u64)
    ensures
        final(out)@ == old(out)@ + enc_u64(x),
{
    let b = u64_to_le_bytes(x);
    append_slice(out, b.as_slice());
}

pub fn append_u128(out: &mut Vec<u8>, x: u128)
    ensures
        final(out)@ == old(out)@ + enc_u128(x),
{
    let b = u128_to_le_bytes(x);
    append_slice(out, b.as_slice());
}

pub fn append_receipt_unsigned(out: &mut Vec<u8>, r: &Receipt)
    requires
        receipt_encodable(r@),
    ensures
        final(out)@ == old(out)@ + enc_receipt_unsigned(r@),
{
    out.push(r.version);
    append_array32(out, &r.task_id);
    append_array32(out, &r.input_commitment);
    append_array32(out, &r.output_commitment);
    append_array32(out, &r.executor.0);
    append_bytes(out, &r.metadata);
    proof {
        assert(out@ =~= old(out)@ + enc_receipt_unsigned(r@));
    }
}

pub fn append_receipt(out: &mut Vec<u8>, r: &Receipt)
    requires
        receipt_encodable(r@),
    ensures
        final(out)@ == old(out)@ + enc_receipt(r@),
{
    append_receipt_unsigned(out, r);
    append_array64(out, &r.signature);
    proof {
        assert(out@ =~= old(out)@ + enc_receipt(r@));
    }
}

pub fn append_task(out: &mut Vec<u8>, t: &ComputeTask)
    requires
        task_encodable(t@),
    ensures
        final(out)@ == old(out)@ + enc_task(t@),
{
    out.push(t.version);
    append_array32(out, &t.submitter.0);
    append_array32(out, &t.executor.0);
    append_array32(out, &t.salt);
    append_array32(out, &t.input_commitment);
    append_bytes(out, &t.execution_spec);
    proof {
        assert(out@ =~= old(out)@ + enc_task(t@));
    }
}

pub fn append_payload(out: &mut Vec<u8>, p: &TransactionPayload)
    requires
        match p@ {
            SpecPayload::Empty => true,
            SpecPayload::AnchorReceipt(r) => receipt_encodable(r),
            SpecPayload::ComputeTask(k) => task_encodable(k),
        },
    ensures
        final(out)@ == old(out)@ + enc_payload(p@),
{
    match p {
        TransactionPayload::Empty => {
            out.push(0u8);
        },
        TransactionPayload::AnchorReceipt(r) => {
            out.push(1u8);
            append_receipt(out, r);
        },
        TransactionPayload::ComputeTask(t) => {
            out.push(2u8);
            append_task(out, t);
        },
    }
    proof {
        assert(out@ =~= old(out)@ + enc_payload(p@));
    }
}

pub fn append_tx_unsigned(out: &mut Vec<u8>, t: &Transaction)
    requires
        tx_encodable(t@),
    ensures
        final(out)@ == old(out)@ + enc_tx_unsigned(t@),
{
    let idx: u8 = match t.tx_type {
        TransactionType::Transfer => 0,
        TransactionType::Stake => 1,
        TransactionType::ComputeTask => 2,
        TransactionType::AnchorReceipt => 3,
    };
    out.push(idx);
    append_array32(out, &t.sender.0);
    append_array32(out, &t.receiver.0);
    append_u128(out, t.amount);
    append_u64(out, t.nonce);
    append_payload(out, &t.payload);
    proof {
        assert(out@ =~= old(out)@ + enc_tx_unsigned(t@));
    }
}

pub fn append_tx(out: &mut Vec<u8>, t: &Transaction)
    requires
        tx_encodable(t@),
    ensures
        final(out)@ == old(out)@ + enc_tx(t@),
{
    append_tx_unsigned(out, t);
    append_array64(out, &t.signature);
    proof {
        assert(out@ =~= old(out)@ + enc_tx(t@));
    }
}

pub fn append_txs(out: &mut Vec<u8>, txs: &Vec<Transaction>)
    requires
        txs_encodable(txs_view(txs@)),
    ensures
        final(out)@ == old(out)@ + enc_txs(txs_view(txs@)),
{
    let ghost all = txs_view(txs@);
    append_compact(out, txs.len());
    let ghost start = out@;
    let mut i: usize = 0;
    while i < txs.len()
        invariant
            0 <= i <= txs.len(),
            all == txs_view(txs@),
            txs_encodable(all),
            out@ == start + enc_tx_items(all.subrange(0, i as int)),
        decreases txs.len() - i,
    {
        assert(tx_encodable(all[i as int]));
        append_tx(out, &txs[i]);
        proof {
            let pre = all.subrange(0, i as int + 1);
            assert(pre.drop_last() =~= all.subrange(0, i as int));
            assert(pre.last() == txs@[i as int]@);
            assert(out@ =~= start + enc_tx_items(pre));
        }
        i += 1;
    }
    proof {
        assert(all.subrange(0, txs.len() as int) =~= all);
        assert(out@ =~= old(out)@ + enc_txs(all));
    }
}

pub fn append_header(out: &mut Vec<u8>, h: &BlockHeader)
    ensures
        final(out)@ == old(out)@ + enc_header(*h),
{
    append_array32(out, &h.parent_hash.0);
    append_array32(out, &h.state_root.0);
    append_array32(out, &h.transactions_root.0);
    append_u64(out, h.timestamp);
    append_u64(out, h.height);
    proof {
        assert(out@ =~= old(out)@ + enc_header(*h));
    }
}

/// The canonical encoding of a transaction.
pub fn encode_transaction(t: &Transaction) -> (r: Vec<u8>)
    requires
        tx_encodable(t@),
    ensures
        r@ == enc_tx(t@),
{
    let mut out: Vec<u8> = Vec::new();
    append_tx(&mut out, t);
    proof {
        assert(out@ =~= enc_tx(t@));
    }
    out
}

/// The bytes the sender of `t` signs.
pub fn signing_payload(t: &Transaction) -> (r: Vec<u8>)
    requires
        tx_encodable(t@),
    ensures
        r@ == enc_tx_unsigned(t@),
{
    let mut out: Vec<u8> = Vec::new();
    append_tx_unsigned(&mut out, t);
    proof {
        assert(out@ =~= enc_tx_unsigned(t@));
    }
    out
}

/// The canonical encoding of a list of transactions.
pub fn encode_transactions(txs: &Vec<Transaction>) -> (r: Vec<u8>)
    requires
        txs_encodable(txs_view(txs@)),
    ensures
        r@ == enc_txs(txs_view(txs@)),
{
    let mut out: Vec<u8> = Vec::new();
    append_txs(&mut out, txs);
    proof {
        assert(out@ =~= enc_txs(txs_view(txs@)));
    }
    out
}

/// The canonical encoding of a block.
pub fn encode_block(b: &Block) -> (r: Vec<u8>)
    requires
        block_encodable(b@),
    ensures
        r@ == enc_block(b@),
{
    let mut out: Vec<u8> = Vec::new();
    append_header(&mut out, &b.header);
    append_txs(&mut out, &b.body.transactions);
    proof {
        assert(out@ =~= enc_block(b@));
    }
    out
}

/// The canonical encoding of an account: address, balance, nonce.
pub open spec fn enc_account(a: Account) -> Seq<u8> {
    a.address.0@ + enc_u128(a.balance) + enc_u64(a.nonce)
}

/// The canonical encoding of an account.
pub fn encode_account(a: &Account) -> (r: Vec<u8>)
    ensures
        r@ == enc_account(*a),
{
    let mut out: Vec<u8> = Vec::new();
    append_array32(&mut out, &a.address.0);
    append_u128(&mut out, a.balance);
    append_u64(&mut out, a.nonce);
    proof {
        assert(out@ =~= enc_account(*a));
    }
    out
}

/// The canonical encoding of a receipt.
pub fn encode_receipt(r: &Receipt) -> (out: Vec<u8>)
    requires
        receipt_encodable(r@),
    ensures
        out@ == enc_receipt(r@),
{
    let mut out: Vec<u8> = Vec::new();
    append_receipt(&mut out, r);
    proof {
        assert(out@ =~= enc_receipt(r@));
    }
    out
}

/// The bytes a receipt's executor signs over, before hashing.
pub fn receipt_unsigned_bytes(r: &Receipt) -> (out: Vec<u8>)
    requires
        receipt_encodable(r@),
    ensures
        out@ == enc_receipt_unsigned(r@),
{
    let mut out: Vec<u8> = Vec::new();
    append_receipt_unsigned(&mut out, r);
    proof {
        assert(out@ =~= enc_receipt_unsigned(r@));
    }
    out
}

/// The canonical encoding of a compute task.
pub fn encode_task(t: &ComputeTask) -> (out: Vec<u8>)
    requires
        task_encodable(t@),
    ensures
        out@ == enc_task(t@),
{
    let mut out: Vec<u8> = Vec::new();
    append_task(&mut out, t);
    proof {
        assert(out@ =~= enc_task(t@));
    }
    out
}

// ── Decoding a compute task ───────────────────────────────────────────

/// Number of fixed-size bytes at the start of an encoded compute task.
pub const TASK_FIXED_BYTES: usize = 129;

/// Decodes a compact length starting at `pos`.
pub fn decode_compact(s: &[u8], pos: usize) -> (r: Option<(usize, usize)>)
    requires
        pos <= s@.len(),
    ensures
        match dec_compact(s@.skip(pos as int)) {
            None => r is None,
            Some((n, k)) => r == Some((n as usize, k as usize)) && n <= 0xffff_ffff && k <= 5,
        },
{
    let ghost t = s@.skip(pos as int);
    if pos >= s.len() {
        return None;
    }
    let b0: u64 = s[pos] as u64;
    assert(b0 == t[0]);
    if b0 % 4 == 0 {
        Some(((b0 / 4) as usize, 1))
    } else if b0 % 4 == 1 {
        if s.len() - pos < 2 {
            return None;
        }
        let x: u64 = (b0 + 256 * (s[pos + 1] as u64)) / 4;
        assert(s[pos + 1] == t[1]);
        if x > 63 {
            Some((x as usize, 2))
        } else {
            None
        }
    } else if b0 % 4 == 2 {
        if s.len() - pos < 4 {
            return None;
        }
        let v: u64 = b0 + 256 * (s[pos + 1] as u64) + 65536 * (s[pos + 2] as u64) + 16777216 * (
        s[pos + 3] as u64);
        assert(v == unle4(t));
        let x = v / 4;
        if x > 16383 {
            Some((x as usize, 4))
        } else {
            None
        }
    } else {
        if b0 != 3 || s.len() - pos < 5 {
            return None;
        }
        let v: u64 = (s[pos + 1] as u64) + 256 * (s[pos + 2] as u64) + 65536 * (s[pos + 3] as u64)
            + 16777216 * (s[pos + 4] as u64);
        assert(v == unle4(t.skip(1)));
        if v > 0x3fff_ffff {
            Some((v as usize, 5))
        } else {
            None
        }
    }
}

/// Copies 32 bytes of `s` starting at `start` into an array.
pub fn read_array32(s: &[u8], start: usize) -> (r: [u8; 32])
    requires
        start + 32 <= s@.len(),
    ensures
        r@ == s@.subrange(start as int, start + 32),
{
    let mut a: [u8; 32] = [0u8; 32];
    let len = s.len();
    let mut i: usize = 0;
    while i < 32
        invariant
            0 <= i <= 32,
            len == s@.len(),
            start + 32 <= s@.len(),
            forall|j: int| 0 <= j < i ==> a@[j] == s@[start + j],
        decreases 32 - i,
    {
        a[i] = s[start + i];
        i += 1;
    }
    proof {
        assert(a@ =~= s@.subrange(start as int, start + 32));
    }
    a
}

/// Decodes a compute task from the start of `b`; trailing bytes are
/// ignored. Succeeds exactly when `b` begins with the encoding of a task.
pub fn decode_compute_task(b: &[u8]) -> (r: Option<ComputeTask>)
    ensures
        match r {
            Some(t) => task_encodable(t@) && enc_task(t@).is_prefix_of(b@),
            None => forall|t: SpecComputeTask|
                task_encodable(t) ==> !(#[trigger] enc_task(t)).is_prefix_of(b@),
        },
{
    if b.len() < TASK_FIXED_BYTES {
        proof {
            assert forall|t: SpecComputeTask| task_encodable(t) implies !(
            #[trigger] enc_task(t)).is_prefix_of(b@) by {
                assert(enc_task(t).len() >= 129);
            }
        }
        return None;
    }
    let dc = decode_compact(b, TASK_FIXED_BYTES);
    match dc {
        None => {
            proof {
                assert forall|t: SpecComputeTask| task_encodable(t) implies !(
                #[trigger] enc_task(t)).is_prefix_of(b@) by {
                    if enc_task(t).is_prefix_of(b@) {
                        lemma_task_prefix_decodes(t, b@);
                    }
                }
            }
            None
        },
        Some((n, k)) => {
            if b.len() - TASK_FIXED_BYTES - k < n {
                proof {
                    assert forall|t: SpecComputeTask| task_encodable(t) implies !(
                    #[trigger] enc_task(t)).is_prefix_of(b@) by {
                        if enc_task(t).is_prefix_of(b@) {
                            lemma_task_prefix_decodes(t, b@);
                        }
                    }
                }
                return None;
            }
            let version = b[0];
            let submitter = read_array32(b, 1);
            let executor = read_array32(b, 33);
            let salt = read_array32(b, 65);
            let input_commitment = read_array32(b, 97);
            let mut spec_bytes: Vec<u8> = Vec::new();
            append_slice(&mut spec_bytes, &b[TASK_FIXED_BYTES + k..TASK_FIXED_BYTES + k + n]);
            let t = ComputeTask {
                version,
                submitter: Address(submitter),
                executor: Address(executor),
                salt,
                input_commitment,
                execution_spec: spec_bytes,
            };
            proof {
                let s = b@;
                lemma_compact_canonical(s.skip(129));
                assert(s.skip(129).subrange(0, k as int) =~= s.subrange(129, 129 + k));
                assert(enc_task(t@) =~= s.subrange(0, 129 + k + n));
            }
            Some(t)
        },
    }
}

/// If `s` begins with the encoding of `t`, its compact length decodes and
/// enough bytes follow it.
pub proof fn lemma_task_prefix_decodes(t: SpecComputeTask, s: Seq<u8>)
    requires
        task_encodable(t),
        enc_task(t).is_prefix_of(s),
    ensures
        s.len() >= 129,
        dec_compact(s.skip(129)) == Some((t.execution_spec.len(), enc_compact(t.execution_spec.len()).len())),
        s.len() >= 129 + enc_compact(t.execution_spec.len()).len() + t.execution_spec.len(),
{
    let n = t.execution_spec.len();
    let e = enc_task(t);
    let head = seq![t.version] + t.submitter.0@ + t.executor.0@ + t.salt@ + t.input_commitment@;
    assert(head.len() == 129);
    assert(e =~= head + (enc_compact(n) + t.execution_spec));
    let rest = s.skip((129 + enc_compact(n).len() + n) as int);
    lemma_compact_roundtrip(n, t.execution_spec + rest);
    assert(s.skip(129) =~= enc_compact(n) + (t.execution_spec + rest)) by {
        assert(s.subrange(0, e.len() as int) =~= e);
        assert forall|i: int| 0 <= i < s.skip(129).len() implies s.skip(129)[i] == (enc_compact(n)
            + (t.execution_spec + rest))[i] by {
            if i < enc_compact(n).len() + n {
                assert(s[129 + i] == e[129 + i]);
            }
        }
    }
}

/// No encoded compute task is a proper extension of another's encoding:
/// the encoding determines the task.
pub proof fn lemma_task_encoding_injective(t1: SpecComputeTask, t2: SpecComputeTask, s: Seq<u8>)
    requires
        task_encodable(t1),
        task_encodable(t2),
        enc_task(t1).is_prefix_of(s),
        enc_task(t2).is_prefix_of(s),
    ensures
        t1 == t2,
{
    lemma_task_prefix_decodes(t1, s);
    lemma_task_prefix_decodes(t2, s);
    let n = t1.execution_spec.len();
    let k = enc_compact(n).len();
    assert(t2.execution_spec.len() == n);
    let e1 = enc_task(t1);
    let e2 = enc_task(t2);
    assert(e1.len() == e2.len());
    assert(e1 =~= e2) by {
        assert(e1 =~= s.subrange(0, e1.len() as int));
        assert(e2 =~= s.subrange(0, e2.len() as int));
    }
    assert(t1.version == e1[0]);
    assert(t1.submitter.0@ =~= e1.subrange(1, 33));
    assert(t2.submitter.0@ =~= e2.subrange(1, 33));
    assert(t1.executor.0@ =~= e1.subrange(33, 65));
    assert(t2.executor.0@ =~= e2.subrange(33, 65));
    assert(t1.salt@ =~= e1.subrange(65, 97));
    assert(t2.salt@ =~= e2.subrange(65, 97));
    assert(t1.input_commitment@ =~= e1.subrange(97, 129));
    assert(t2.input_commitment@ =~= e2.subrange(97, 129));
    assert(t1.execution_spec =~= e1.subrange(129 + k as int, 129 + k + n as int));
    assert(t2.execution_spec =~= e2.subrange(129 + k as int, 129 + k + n as int));
    assert(t1.submitter.0 =~= t2.submitter.0);
    assert(t1.executor.0 =~= t2.executor.0);
    assert(t1.salt =~= t2.salt);
    assert(t1.input_commitment =~= t2.input_commitment);
}

/// Decoding the encoding of a task gives the task back.
pub proof fn law_task_roundtrip(t: SpecComputeTask, decoded: SpecComputeTask)
    requires
        task_encodable(t),
        task_encodable(decoded),
        enc_task(decoded).is_prefix_of(enc_task(t)),
    ensures
        decoded == t,
{
    assert(enc_task(t).is_prefix_of(enc_task(t)));
    lemma_task_encoding_injective(decoded, t, enc_task(t));
}

} // verus!
