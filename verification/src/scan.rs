//! Scanning chain artifacts: finding a byte string inside another, the
//! forms a byte string takes in text, and collecting the receipts that
//! anchor one task across a run of blocks.

use vstd::prelude::*;

use crate::model::{Block, Receipt, SpecBlock, SpecPayload, SpecReceipt, TransactionPayload};
use crate::hexadecimal::{hex_encode, hex_text};
use crate::primitives::{Duplicate, KeyEq};

verus! {

/// `needle` occurs in `hay` at position `i`.
pub open spec fn occurs_at(hay: Seq<u8>, needle: Seq<u8>, i: int) -> bool {
    0 <= i && i + needle.len() <= hay.len() && hay.subrange(i, i + needle.len()) == needle
}

/// Whether the non-empty `needle` occurs anywhere in `hay`. An empty
/// needle is never reported as found.
pub fn contains(hay: &[u8], needle: &[u8]) -> (r: bool)
    ensures
        r == (needle@.len() > 0 && exists|i: int| #[trigger] occurs_at(hay@, needle@, i)),
{
    let n = needle.len();
    if n == 0 {
        return false;
    }
    if n > hay.len() {
        proof {
            assert forall|i: int| !#[trigger] occurs_at(hay@, needle@, i) by {}
        }
        return false;
    }
    let hl = hay.len();
    let mut i: usize = 0;
    while i <= hl - n
        invariant
            hl == hay@.len(),
            n == needle@.len(),
            0 < n <= hay@.len(),
            i + n <= hay@.len() + 1,
            forall|k: int| 0 <= k < i ==> !#[trigger] occurs_at(hay@, needle@, k),
        decreases hay@.len() + 1 - i - n,
    {
        let mut j: usize = 0;
        let mut same = true;
        while j < n
            invariant
                hl == hay@.len(),
                n == needle@.len(),
                i + n <= hay@.len(),
                0 <= j <= n,
                same == (forall|t: int| 0 <= t < j ==> hay@[i + t] == needle@[t]),
            decreases n - j,
        {
            if hay[i + j] != needle[j] {
                same = false;
            }
            j += 1;
        }
        if same {
            proof {
                assert(hay@.subrange(i as int, i + n) =~= needle@);
                assert(occurs_at(hay@, needle@, i as int));
            }
            return true;
        }
        proof {
            assert(!occurs_at(hay@, needle@, i as int)) by {
                if hay@.subrange(i as int, i + n) == needle@ {
                    assert forall|t: int| 0 <= t < n implies hay@[i + t] == needle@[t] by {
                        assert(hay@.subrange(i as int, i + n)[t] == hay@[i + t]);
                    }
                }
            }
        }
        i += 1;
    }
    proof {
        assert forall|k: int| !#[trigger] occurs_at(hay@, needle@, k) by {
            if k >= i {
                assert(k + n > hay@.len());
            }
        }
    }
    false
}

/// The receipts in one block that anchor `task_id`, in body order.
pub open spec fn receipts_in_block(b: SpecBlock, task_id: [u8; 32]) -> Seq<SpecReceipt>
    decreases b.transactions.len(),
{
    if b.transactions.len() == 0 {
        Seq::empty()
    } else {
        let prev = receipts_in_block(SpecBlock { transactions: b.transactions.drop_last(), ..b }, task_id);
        match b.transactions.last().payload {
            SpecPayload::AnchorReceipt(r) => if r.task_id == task_id { prev.push(r) } else { prev },
            _ => prev,
        }
    }
}

/// The receipts collected for a task are exactly those that anchor it:
/// every one names `task_id`, and every receipt the block anchors for
/// `task_id` is among them.
pub proof fn law_receipts_for_task(b: SpecBlock, task_id: [u8; 32])
    ensures
        forall|k: int|
            0 <= k < receipts_in_block(b, task_id).len() ==> (#[trigger] receipts_in_block(b, task_id)[k]).task_id
                == task_id,
        forall|i: int|
            0 <= i < b.transactions.len() && (#[trigger] b.transactions[i]).payload is AnchorReceipt
                && b.transactions[i].payload->AnchorReceipt_0.task_id == task_id ==> receipts_in_block(
                b,
                task_id,
            ).contains(b.transactions[i].payload->AnchorReceipt_0),
        receipts_in_block(b, task_id).len() <= b.transactions.len(),
    decreases b.transactions.len(),
{
    if b.transactions.len() > 0 {
        let prev_b = SpecBlock { transactions: b.transactions.drop_last(), ..b };
        law_receipts_for_task(prev_b, task_id);
        let prev = receipts_in_block(prev_b, task_id);
        let cur = receipts_in_block(b, task_id);
        assert forall|i: int|
            0 <= i < b.transactions.len() && (#[trigger] b.transactions[i]).payload is AnchorReceipt
                && b.transactions[i].payload->AnchorReceipt_0.task_id == task_id implies cur.contains(b.transactions[i].payload->AnchorReceipt_0) by {
            let r = b.transactions[i].payload->AnchorReceipt_0;
            if i < b.transactions.len() - 1 {
                assert(prev_b.transactions[i] == b.transactions[i]);
                let j = choose|j: int| 0 <= j < prev.len() && prev[j] == r;
                assert(cur[j] == r);
            } else {
                assert(cur[cur.len() - 1] == r);
            }
        }
    }
}

/// Collects the receipts anchoring `task_id` in `block`, tagging each with
/// `height`, after those already in `out`.
pub fn collect_receipts(block: &Block, height: u64, task_id: &[u8; 32], out: &mut Vec<(u64, Receipt)>)
    ensures
        final(out)@.len() == old(out)@.len() + receipts_in_block(block@, *task_id).len(),
        forall|k: int| 0 <= k < old(out)@.len() ==> #[trigger] final(out)@[k] == old(out)@[k],
        forall|k: int|
            0 <= k < receipts_in_block(block@, *task_id).len() ==> (#[trigger] final(out)@[old(out)@.len()
                + k]).0 == height && final(out)@[old(out)@.len() + k].1@ == receipts_in_block(
                block@,
                *task_id,
            )[k],
{
    let txs = &block.body.transactions;
    let ghost b = block@;
    let ghost start = out@;
    let mut i: usize = 0;
    while i < txs.len()
        invariant
            0 <= i <= txs@.len(),
            b == block@,
            *txs == block.body.transactions,
            ({
                let got = receipts_in_block(SpecBlock { transactions: b.transactions.take(i as int), ..b }, *task_id);
                &&& out@.len() == start.len() + got.len()
                &&& forall|k: int| 0 <= k < start.len() ==> #[trigger] out@[k] == start[k]
                &&& forall|k: int|
                    0 <= k < got.len() ==> (#[trigger] out@[start.len() + k]).0 == height
                        && out@[start.len() + k].1@ == got[k]
            }),
        decreases txs@.len() - i,
    {
        let ghost prev_b = SpecBlock { transactions: b.transactions.take(i as int), ..b };
        let ghost next_b = SpecBlock { transactions: b.transactions.take(i + 1), ..b };
        proof {
            assert(next_b.transactions.drop_last() =~= prev_b.transactions);
            assert(SpecBlock { transactions: next_b.transactions.drop_last(), ..next_b } == prev_b);
            assert(next_b.transactions.last() == txs@[i as int]@);
        }
        if let TransactionPayload::AnchorReceipt(r) = &txs[i].payload {
            if r.task_id.key_eq(task_id) {
                let ghost pre = out@;
                let c = r.duplicate();
                out.push((height, c));
                proof {
                    assert(out@ == pre.push((height, c)));
                }
            }
        }
        i += 1;
    }
    proof {
        assert(b.transactions.take(txs@.len() as int) =~= b.transactions);
        assert(SpecBlock { transactions: b.transactions, ..b } == b);
    }
}

/// The decimal digits of a byte, without leading zeros.
pub open spec fn decimal(b: u8) -> Seq<u8> {
    if b < 10 {
        seq![(0x30 + b) as u8]
    } else if b < 100 {
        seq![(0x30 + b / 10) as u8, (0x30 + b % 10) as u8]
    } else {
        seq![(0x30 + b / 100) as u8, (0x30 + (b / 10) % 10) as u8, (0x30 + b % 10) as u8]
    }
}

/// The bytes of a byte string in decimal, separated by commas.
pub open spec fn decimal_list(s: Seq<u8>) -> Seq<u8>
    decreases s.len(),
{
    if s.len() == 0 {
        Seq::empty()
    } else if s.len() == 1 {
        decimal(s[0])
    } else {
        decimal_list(s.drop_last()) + seq![0x2cu8] + decimal(s.last())
    }
}

/// Calls `serde_json::to_string` on a byte slice and takes the bytes of the
/// string (none, should serialisation fail, which it does not for a byte
/// slice: it writes a sequence of integers into a growable buffer).
/// Claimed: compact JSON, an array of the bytes in decimal with commas
/// between and no spaces.
#[verifier::external_body]
fn json_array_of(bytes: &[u8]) -> (r: Vec<u8>)
    ensures
        r@ == seq![0x5bu8] + decimal_list(bytes@) + seq![0x5du8],
{
    serde_json::to_string(bytes).unwrap_or_default().into_bytes()
}

/// Every form a private byte string could take in a block, a JSON
/// response or a log line: the bytes themselves, their hexadecimal text,
/// and the numbers of their JSON array without its brackets.
pub fn forms(bytes: &[u8]) -> (r: Vec<Vec<u8>>)
    ensures
        r@.len() == 3,
        r@[0]@ == bytes@,
        r@[1]@ == hex_text(bytes@),
        r@[2]@ == decimal_list(bytes@),
{
    let json = json_array_of(bytes);
    proof {
        assert(json@.subrange(1, json@.len() - 1) =~= decimal_list(bytes@));
    }
    let mut inner: Vec<u8> = Vec::new();
    let end = json.len() - 1;
    let mut i: usize = 1;
    while i < end
        invariant
            1 <= i <= end,
            end == json@.len() - 1,
            inner@ == json@.subrange(1, i as int),
        decreases end - i,
    {
        inner.push(json[i]);
        proof {
            assert(inner@ =~= json@.subrange(1, i + 1));
        }
        i += 1;
    }
    let mut raw: Vec<u8> = Vec::new();
    let mut k: usize = 0;
    while k < bytes.len()
        invariant
            0 <= k <= bytes@.len(),
            raw@ == bytes@.subrange(0, k as int),
        decreases bytes@.len() - k,
    {
        raw.push(bytes[k]);
        proof {
            assert(raw@ =~= bytes@.subrange(0, k + 1));
        }
        k += 1;
    }
    proof {
        assert(raw@ =~= bytes@);
    }
    let mut out: Vec<Vec<u8>> = Vec::new();
    out.push(raw);
    out.push(hex_encode(bytes));
    out.push(inner);
    out
}

} // verus!
