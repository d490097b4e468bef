//! What admission promises block production: a pool that admission built
//! against the committed state is a pool whose transactions, taken in
//! order, pass every block rule against that state.

use vstd::prelude::*;

use crate::admission::{admission, SubmitError};
use crate::backend::{produce_outcome, selected, MAX_TX_PER_BLOCK};
use crate::crypto::{spec_tx_hash, spec_tx_signature_valid};
use crate::mempool::{
    amount_at, anchor_id, chain_end, chain_sum, compute_id, has_anchor_id, has_compute_id, has_sender_nonce,
    pending_task_with_id, spec_sender_pending, PoolEntry,
};
use crate::model::{Account, SpecComputeTask, SpecPayload, SpecReceipt, SpecTransaction};
use crate::primitives as p;
use crate::primitives::Address;
use crate::rules::{
    canonical_fields, lookup, run_txs, spec_task_envelope, spec_type_payload, step_anchor, step_task, step_transfer,
    tx_step, ApplyBlockError, BlockRun, PayloadKind,
};
use crate::storage::StoreView;

verus! {

/// The pool is what a run of admissions against `st` built: each entry was
/// admitted against the entries before it, and joined the pool.
pub open spec fn admitted_pool(st: StoreView, v: Seq<PoolEntry>) -> bool
    decreases v.len(),
{
    v.len() == 0 || (admitted_pool(st, v.drop_last()) && admission(st, v.drop_last(), v.last().1)
        == Ok::<(p::Hash, bool), SubmitError>((v.last().0, true)))
}

/// A transfer or a stake: a transaction that moves money.
pub open spec fn is_plain(t: SpecTransaction) -> bool {
    spec_type_payload(t) == Some(PayloadKind::Plain)
}

/// How many entries `a` sends.
pub open spec fn sent_count(v: Seq<PoolEntry>, a: Address) -> nat
    decreases v.len(),
{
    if v.len() == 0 {
        0
    } else {
        sent_count(v.drop_last(), a) + if v.last().1.sender == a { 1nat } else { 0nat }
    }
}

/// What the entries `a` sends spend.
pub open spec fn debit(v: Seq<PoolEntry>, a: Address) -> nat
    decreases v.len(),
{
    if v.len() == 0 {
        0
    } else {
        debit(v.drop_last(), a) + if v.last().1.sender == a { v.last().1.amount as nat } else { 0nat }
    }
}

/// What the transfers to `a` bring it.
pub open spec fn credit(v: Seq<PoolEntry>, a: Address) -> nat
    decreases v.len(),
{
    if v.len() == 0 {
        0
    } else {
        credit(v.drop_last(), a) + if is_plain(v.last().1) && v.last().1.receiver == a {
            v.last().1.amount as nat
        } else {
            0nat
        }
    }
}

/// Whether some transfer goes to `a`.
pub open spec fn receives(v: Seq<PoolEntry>, a: Address) -> bool
    decreases v.len(),
{
    v.len() > 0 && (receives(v.drop_last(), a) || (is_plain(v.last().1) && v.last().1.receiver == a))
}

/// What an admitted pool looks like from one sender: its nonces run from
/// its committed nonce without a gap, and its spending fits its balance.
pub open spec fn sender_shape(st: StoreView, v: Seq<PoolEntry>, s: Address) -> bool {
    match st.account(s) {
        None => sent_count(v, s) == 0,
        Some(acc) => {
            &&& acc.nonce + sent_count(v, s) <= 0x1_0000_0000_0000_0000
            &&& forall|n: u64| #[trigger]
                has_sender_nonce(v, s, n) <==> acc.nonce <= n < acc.nonce + sent_count(v, s)
            &&& chain_sum(v, s, acc.nonce as int, acc.nonce + sent_count(v, s)) == debit(v, s)
            &&& debit(v, s) <= acc.balance
        },
    }
}

/// No two entries share a sender and nonce, an anchored task id, or a
/// committed task id.
pub open spec fn pool_unique(v: Seq<PoolEntry>) -> bool {
    &&& forall|i: int, j: int|
        0 <= i < j < v.len() ==> !((#[trigger] v[i]).1.sender == (#[trigger] v[j]).1.sender && v[i].1.nonce
            == v[j].1.nonce)
    &&& forall|i: int, j: int|
        0 <= i < j < v.len() && anchor_id((#[trigger] v[i]).1) is Some ==> anchor_id(v[i].1) != anchor_id(
            (#[trigger] v[j]).1,
        )
    &&& forall|i: int, j: int|
        0 <= i < j < v.len() && compute_id((#[trigger] v[i]).1) is Some ==> compute_id(v[i].1) != compute_id(
            (#[trigger] v[j]).1,
        )
}

/// `chain_end` stops at the first nonce that is not pending.
proof fn lemma_chain_end_at(v: Seq<PoolEntry>, s: Address, n: int, end: int)
    requires
        0 <= n <= end,
        forall|m: u64| n <= m < end ==> #[trigger] has_sender_nonce(v, s, m),
        end <= u64::MAX ==> !has_sender_nonce(v, s, end as u64),
        end <= 0x1_0000_0000_0000_0000,
    ensures
        chain_end(v, s, n) == end,
    decreases end - n,
{
    if n < end {
        assert(has_sender_nonce(v, s, n as u64));
        lemma_chain_end_at(v, s, n + 1, end);
    }
}

/// Chain sums agree where the amounts agree.
proof fn lemma_chain_sum_on(v: Seq<PoolEntry>, w: Seq<PoolEntry>, s: Address, from: int, to: int)
    requires
        forall|m: int| from <= m < to ==> #[trigger] amount_at(w, s, m) == amount_at(v, s, m),
    ensures
        chain_sum(w, s, from, to) == chain_sum(v, s, from, to),
    decreases to - from,
{
    if to > from {
        lemma_chain_sum_on(v, w, s, from, to - 1);
        assert(amount_at(w, s, to - 1) == amount_at(v, s, to - 1));
    }
}

/// Appending an entry of another sender changes nothing of `s`.
proof fn lemma_other_sender(v: Seq<PoolEntry>, s: Address, from: int, to: int)
    requires
        v.len() > 0,
        v.last().1.sender != s,
        pool_unique(v),
    ensures
        forall|n: u64| #[trigger] has_sender_nonce(v, s, n) == has_sender_nonce(v.drop_last(), s, n),
        chain_sum(v.drop_last(), s, from, to) == chain_sum(v, s, from, to),
{
    let w = v.drop_last();
    assert forall|n: u64| #[trigger] has_sender_nonce(v, s, n) == has_sender_nonce(w, s, n) by {
        if has_sender_nonce(v, s, n) {
            let i = choose|i: int| 0 <= i < v.len() && (#[trigger] v[i]).1.sender == s && v[i].1.nonce == n;
            assert(w[i] == v[i]);
        }
        if has_sender_nonce(w, s, n) {
            let i = choose|i: int| 0 <= i < w.len() && (#[trigger] w[i]).1.sender == s && w[i].1.nonce == n;
            assert(v[i] == w[i]);
        }
    }
    assert forall|m: int| from <= m < to implies #[trigger] amount_at(w, s, m) == amount_at(v, s, m) by {
        if has_sender_nonce(v, s, m as u64) && 0 <= m <= u64::MAX {
            let iw = choose|i: int| 0 <= i < w.len() && (#[trigger] w[i]).1.sender == s && w[i].1.nonce == m as u64;
            let iv = choose|i: int| 0 <= i < v.len() && (#[trigger] v[i]).1.sender == s && v[i].1.nonce == m as u64;
            assert(w[iw] == v[iw]);
            if iw != iv {
                if iw < iv {
                    assert(!(v[iw].1.sender == v[iv].1.sender && v[iw].1.nonce == v[iv].1.nonce));
                } else {
                    assert(!(v[iv].1.sender == v[iw].1.sender && v[iv].1.nonce == v[iw].1.nonce));
                }
            }
        }
    }
    lemma_chain_sum_on(v, w, s, from, to);
}

/// What admission checked of the last entry of an admitted pool.
pub open spec fn admitted_last(st: StoreView, v: Seq<PoolEntry>) -> bool {
    let w = v.drop_last();
    let tx = v.last().1;
    &&& spec_type_payload(tx) is Some
    &&& !(spec_type_payload(tx) == Some(PayloadKind::Plain)) ==> canonical_fields(tx)
    &&& v.last().0 == spec_tx_hash(tx)
    &&& !st.transactions.contains_key(v.last().0)
    &&& spec_tx_signature_valid(tx)
    &&& st.account(tx.sender) matches Some(acc) && {
        let end = chain_end(w, tx.sender, acc.nonce as int);
        let sum = chain_sum(w, tx.sender, acc.nonce as int, end);
        &&& end <= u64::MAX
        &&& tx.nonce == end
        &&& (if sum >= u128::MAX { u128::MAX as int } else { sum }) + tx.amount <= acc.balance
    }
    &&& anchor_id(tx) matches Some(id) ==> !has_anchor_id(w, id)
    &&& compute_id(tx) matches Some(id) ==> !has_compute_id(w, id)
}

proof fn lemma_chain_sum_nonneg(v: Seq<PoolEntry>, s: Address, from: int, to: int)
    ensures
        chain_sum(v, s, from, to) >= 0,
    decreases to - from,
{
    if to > from {
        lemma_chain_sum_nonneg(v, s, from, to - 1);
    }
}

proof fn lemma_admitted_last(st: StoreView, v: Seq<PoolEntry>)
    requires
        v.len() > 0,
        admission(st, v.drop_last(), v.last().1) == Ok::<(p::Hash, bool), SubmitError>((v.last().0, true)),
    ensures
        admitted_last(st, v),
{
    let w = v.drop_last();
    let tx = v.last().1;
    let acc = st.account(tx.sender).unwrap();
    let pend = spec_sender_pending(w, tx.sender, acc.nonce);
    let end = chain_end(w, tx.sender, acc.nonce as int);
    let sum = chain_sum(w, tx.sender, acc.nonce as int, end);
    lemma_chain_sum_nonneg(w, tx.sender, acc.nonce as int, end);
    assert(pend.pending_debit + tx.amount <= acc.balance);
    assert(pend.expected_nonce == Some(tx.nonce));
    crate::mempool::lemma_chain_end_free(w, tx.sender, acc.nonce as int);
}

/// Entries of one sender with one nonce are the same entry.
proof fn lemma_same_sender_nonce(v: Seq<PoolEntry>, i: int, j: int)
    requires
        pool_unique(v),
        0 <= i < v.len(),
        0 <= j < v.len(),
        v[i].1.sender == v[j].1.sender,
        v[i].1.nonce == v[j].1.nonce,
    ensures
        i == j,
{
    if i < j {
        assert(!(v[i].1.sender == v[j].1.sender && v[i].1.nonce == v[j].1.nonce));
    } else if j < i {
        assert(!(v[j].1.sender == v[i].1.sender && v[j].1.nonce == v[i].1.nonce));
    }
}

/// The shape of an admitted pool.
proof fn lemma_admitted_shape(st: StoreView, v: Seq<PoolEntry>)
    requires
        admitted_pool(st, v),
    ensures
        pool_unique(v),
        forall|s: Address| #[trigger] sender_shape(st, v, s),
    decreases v.len(),
{
    if v.len() > 0 {
        let w = v.drop_last();
        let e = v.last();
        let tx = e.1;
        let last = v.len() - 1;
        lemma_admitted_shape(st, w);
        lemma_admitted_last(st, v);
        let acc = st.account(tx.sender).unwrap();
        let c = acc.nonce as int;
        let k = sent_count(w, tx.sender) as int;
        assert(sender_shape(st, w, tx.sender));
        assert forall|m: u64| c <= m < c + k implies #[trigger] has_sender_nonce(w, tx.sender, m) by {}
        if c + k <= u64::MAX {
            assert(!has_sender_nonce(w, tx.sender, (c + k) as u64));
        }
        lemma_chain_end_at(w, tx.sender, c, c + k);
        assert(tx.nonce == c + k);
        assert(forall|i: int| 0 <= i < w.len() ==> #[trigger] v[i] == w[i]);
        // Uniqueness of the new entry against the earlier ones.
        assert forall|i: int, j: int|
            0 <= i < j < v.len() implies !((#[trigger] v[i]).1.sender == (#[trigger] v[j]).1.sender
            && v[i].1.nonce == v[j].1.nonce) by {
            if j == last && v[i].1.sender == tx.sender && v[i].1.nonce == tx.nonce {
                assert(w[i].1.sender == tx.sender && w[i].1.nonce == tx.nonce);
                assert(has_sender_nonce(w, tx.sender, tx.nonce));
            }
        }
        assert forall|i: int, j: int|
            0 <= i < j < v.len() && anchor_id((#[trigger] v[i]).1) is Some implies anchor_id(v[i].1) != anchor_id(
            (#[trigger] v[j]).1,
        ) by {
            if j == last && anchor_id(v[i].1) == anchor_id(tx) {
                assert(anchor_id(w[i].1) == anchor_id(tx));
                assert(has_anchor_id(w, anchor_id(tx).unwrap()));
            }
        }
        assert forall|i: int, j: int|
            0 <= i < j < v.len() && compute_id((#[trigger] v[i]).1) is Some implies compute_id(v[i].1) != compute_id(
            (#[trigger] v[j]).1,
        ) by {
            if j == last && compute_id(v[i].1) == compute_id(tx) {
                assert(compute_id(w[i].1) == compute_id(tx));
                assert(has_compute_id(w, compute_id(tx).unwrap()));
            }
        }
        assert(pool_unique(v));
        assert forall|s: Address| #[trigger] sender_shape(st, v, s) by {
            assert(sender_shape(st, w, s));
            if s != tx.sender {
                if let Some(a) = st.account(s) {
                    lemma_other_sender(v, s, a.nonce as int, a.nonce + sent_count(w, s));
                }
            } else {
                lemma_sender_extends(st, v, c, k);
            }
        }
    }
}

/// Appending the sender's next nonce extends its run by one.
proof fn lemma_sender_extends(st: StoreView, v: Seq<PoolEntry>, c: int, k: int)
    requires
        v.len() > 0,
        pool_unique(v),
        admitted_last(st, v),
        sender_shape(st, v.drop_last(), v.last().1.sender),
        st.account(v.last().1.sender) matches Some(acc) && acc.nonce == c,
        k == sent_count(v.drop_last(), v.last().1.sender),
        v.last().1.nonce == c + k,
    ensures
        sender_shape(st, v, v.last().1.sender),
{
    let w = v.drop_last();
    let tx = v.last().1;
    let s = tx.sender;
    let acc = st.account(s).unwrap();
    let last = v.len() - 1;
    assert(forall|i: int| 0 <= i < w.len() ==> #[trigger] v[i] == w[i]);
    assert(sent_count(v, s) == k + 1);
    assert(debit(v, s) == debit(w, s) + tx.amount);
    assert forall|n: u64| #[trigger] has_sender_nonce(v, s, n) <==> c <= n < c + k + 1 by {
        if has_sender_nonce(v, s, n) {
            let i = choose|i: int| 0 <= i < v.len() && (#[trigger] v[i]).1.sender == s && v[i].1.nonce == n;
            if i < last {
                assert(w[i].1.sender == s && w[i].1.nonce == n);
                assert(has_sender_nonce(w, s, n));
            }
        }
        if c <= n < c + k {
            assert(has_sender_nonce(w, s, n));
            let i = choose|i: int| 0 <= i < w.len() && (#[trigger] w[i]).1.sender == s && w[i].1.nonce == n;
            assert(v[i].1.sender == s && v[i].1.nonce == n);
        }
        if n == c + k {
            assert(v[last].1.sender == s && v[last].1.nonce == n);
        }
    }
    // The amounts below the new nonce are those of the earlier entries.
    assert forall|m: int| c <= m < c + k implies #[trigger] amount_at(w, s, m) == amount_at(v, s, m) by {
        assert(has_sender_nonce(w, s, m as u64));
        assert(has_sender_nonce(v, s, m as u64));
        let iw = choose|i: int| 0 <= i < w.len() && (#[trigger] w[i]).1.sender == s && w[i].1.nonce == m as u64;
        let iv = choose|i: int| 0 <= i < v.len() && (#[trigger] v[i]).1.sender == s && v[i].1.nonce == m as u64;
        assert(v[iw] == w[iw]);
        lemma_same_sender_nonce(v, iw, iv);
    }
    lemma_chain_sum_on(v, w, s, c, c + k);
    // The amount at the new nonce is the new entry's.
    assert(has_sender_nonce(v, s, (c + k) as u64));
    let iv = choose|i: int| 0 <= i < v.len() && (#[trigger] v[i]).1.sender == s && v[i].1.nonce == (c + k) as u64;
    lemma_same_sender_nonce(v, iv, last);
    assert(amount_at(v, s, c + k) == tx.amount);
    assert(chain_sum(v, s, c, c + k + 1) == chain_sum(v, s, c, c + k) + amount_at(v, s, c + k));
    let end = chain_end(w, s, c);
    assert(chain_sum(w, s, c, end) == debit(w, s));
}

/// The transactions of pool entries, in order.
pub open spec fn pool_txs(v: Seq<PoolEntry>) -> Seq<SpecTransaction> {
    Seq::new(v.len(), |i: int| v[i].1)
}

/// What `a` holds before any pending transaction applies.
pub open spec fn base_balance(st: StoreView, a: Address) -> int {
    match st.account(a) {
        Some(acc) => acc.balance as int,
        None => 0,
    }
}

/// The cases admission does not look at: the last nonce, a transfer to
/// oneself, and a receiver whose balance the pending transfers would
/// overflow.
pub open spec fn outside_admission(st: StoreView, v: Seq<PoolEntry>) -> bool {
    ||| exists|i: int| 0 <= i < v.len() && (#[trigger] v[i]).1.nonce == u64::MAX
    ||| exists|i: int| 0 <= i < v.len() && is_plain((#[trigger] v[i]).1) && v[i].1.sender == v[i].1.receiver
    ||| exists|a: Address| #[trigger] base_balance(st, a) + credit(v, a) > u128::MAX
}

/// The account `a` holds after the pending transactions `w` apply.
spec fn expected_account(st: StoreView, w: Seq<PoolEntry>, a: Address) -> Option<Account> {
    match st.account(a) {
        Some(acc) => Some(
            Account {
                address: acc.address,
                balance: (acc.balance - debit(w, a) + credit(w, a)) as u128,
                nonce: (acc.nonce + sent_count(w, a)) as u64,
            },
        ),
        None => if receives(w, a) {
            Some(Account { address: a, balance: credit(w, a) as u128, nonce: 0 })
        } else {
            None
        },
    }
}

/// Validation of `w` reached the state `run` describes.
spec fn run_matches(st: StoreView, w: Seq<PoolEntry>, run: BlockRun) -> bool {
    &&& forall|a: Address| #[trigger] lookup(st, run, a) == expected_account(st, w, a)
    &&& forall|x: [u8; 32]| #[trigger] run.anchored.contains(x) <==> has_anchor_id(w, x)
    &&& forall|x: [u8; 32]| #[trigger] run.tasks.contains_key(x) <==> has_compute_id(w, x)
    &&& forall|x: [u8; 32]| run.tasks.contains_key(x) ==> #[trigger] run.tasks[x] == pending_task_with_id(w, x)
}

proof fn lemma_no_credit(w: Seq<PoolEntry>, a: Address)
    ensures
        !receives(w, a) ==> credit(w, a) == 0,
    decreases w.len(),
{
    if w.len() > 0 {
        lemma_no_credit(w.drop_last(), a);
    }
}

/// What admission fixed of the last entry, in terms of its sender's run.
proof fn lemma_last_entry(st: StoreView, v: Seq<PoolEntry>)
    requires
        v.len() > 0,
        admitted_pool(st, v),
    ensures
        admitted_last(st, v),
        pool_unique(v),
        forall|s: Address| #[trigger] sender_shape(st, v.drop_last(), s),
        forall|s: Address| #[trigger] sender_shape(st, v, s),
        st.account(v.last().1.sender) matches Some(acc) && {
            &&& v.last().1.nonce == acc.nonce + sent_count(v.drop_last(), v.last().1.sender)
            &&& debit(v.drop_last(), v.last().1.sender) + v.last().1.amount <= acc.balance
        },
{
    let w = v.drop_last();
    let tx = v.last().1;
    lemma_admitted_shape(st, v);
    lemma_admitted_shape(st, w);
    lemma_admitted_last(st, v);
    let acc = st.account(tx.sender).unwrap();
    let c = acc.nonce as int;
    let k = sent_count(w, tx.sender) as int;
    assert(sender_shape(st, w, tx.sender));
    assert forall|m: u64| c <= m < c + k implies #[trigger] has_sender_nonce(w, tx.sender, m) by {}
    if c + k <= u64::MAX {
        assert(!has_sender_nonce(w, tx.sender, (c + k) as u64));
    }
    lemma_chain_end_at(w, tx.sender, c, c + k);
}

/// Validation starts where an empty pool leaves every account.
proof fn lemma_start_matches(st: StoreView)
    ensures
        run_matches(st, Seq::<PoolEntry>::empty(), BlockRun::start(st)),
{
    let w = Seq::<PoolEntry>::empty();
    assert forall|a: Address| #[trigger] lookup(st, BlockRun::start(st), a) == expected_account(st, w, a) by {
        if let Some(acc) = st.account(a) {
            assert(expected_account(st, w, a) == Some(acc));
        }
    }
}

/// How the anchored and committed task ids of a pool grow by one entry.
proof fn lemma_ids_extend(v: Seq<PoolEntry>)
    requires
        v.len() > 0,
        pool_unique(v),
    ensures
        forall|x: [u8; 32]| #[trigger] has_anchor_id(v, x) <==> (has_anchor_id(v.drop_last(), x) || anchor_id(
            v.last().1,
        ) == Some(x)),
        forall|x: [u8; 32]| #[trigger] has_compute_id(v, x) <==> (has_compute_id(v.drop_last(), x) || compute_id(
            v.last().1,
        ) == Some(x)),
        forall|x: [u8; 32]|
            has_compute_id(v.drop_last(), x) ==> #[trigger] pending_task_with_id(v, x) == pending_task_with_id(
                v.drop_last(),
                x,
            ),
        compute_id(v.last().1) matches Some(x) ==> (pending_task_with_id(v, x) == match v.last().1.payload {
            SpecPayload::ComputeTask(k) => k,
            _ => arbitrary(),
        }),
{
    let w = v.drop_last();
    let last = v.len() - 1;
    assert(forall|i: int| 0 <= i < w.len() ==> #[trigger] v[i] == w[i]);
    assert forall|x: [u8; 32]| #[trigger] has_anchor_id(v, x) <==> (has_anchor_id(w, x) || anchor_id(v.last().1)
        == Some(x)) by {
        if has_anchor_id(v, x) {
            let i = choose|i: int| 0 <= i < v.len() && anchor_id((#[trigger] v[i]).1) == Some(x);
            if i < last {
                assert(anchor_id(w[i].1) == Some(x));
            }
        }
        if has_anchor_id(w, x) {
            let i = choose|i: int| 0 <= i < w.len() && anchor_id((#[trigger] w[i]).1) == Some(x);
            assert(anchor_id(v[i].1) == Some(x));
        }
        if anchor_id(v.last().1) == Some(x) {
            assert(anchor_id(v[last].1) == Some(x));
        }
    }
    assert forall|x: [u8; 32]| #[trigger] has_compute_id(v, x) <==> (has_compute_id(w, x) || compute_id(
        v.last().1,
    ) == Some(x)) by {
        if has_compute_id(v, x) {
            let i = choose|i: int| 0 <= i < v.len() && compute_id((#[trigger] v[i]).1) == Some(x);
            if i < last {
                assert(compute_id(w[i].1) == Some(x));
            }
        }
        if has_compute_id(w, x) {
            let i = choose|i: int| 0 <= i < w.len() && compute_id((#[trigger] w[i]).1) == Some(x);
            assert(compute_id(v[i].1) == Some(x));
        }
        if compute_id(v.last().1) == Some(x) {
            assert(compute_id(v[last].1) == Some(x));
        }
    }
    assert forall|x: [u8; 32]| has_compute_id(w, x) implies #[trigger] pending_task_with_id(v, x)
        == pending_task_with_id(w, x) by {
        let iw = choose|i: int| 0 <= i < w.len() && compute_id((#[trigger] w[i]).1) == Some(x);
        assert(compute_id(v[iw].1) == Some(x));
        let iv = choose|i: int| 0 <= i < v.len() && compute_id((#[trigger] v[i]).1) == Some(x);
        lemma_same_compute_id(v, iv, iw);
    }
    if let Some(x) = compute_id(v.last().1) {
        assert(compute_id(v[last].1) == Some(x));
        let iv = choose|i: int| 0 <= i < v.len() && compute_id((#[trigger] v[i]).1) == Some(x);
        lemma_same_compute_id(v, iv, last);
    }
}

/// Entries that commit the same task are the same entry.
proof fn lemma_same_compute_id(v: Seq<PoolEntry>, i: int, j: int)
    requires
        pool_unique(v),
        0 <= i < v.len(),
        0 <= j < v.len(),
        compute_id(v[i].1) is Some,
        compute_id(v[i].1) == compute_id(v[j].1),
    ensures
        i == j,
{
    if i < j {
        assert(compute_id(v[i].1) != compute_id(v[j].1));
    } else if j < i {
        assert(compute_id(v[j].1) != compute_id(v[i].1));
    }
}

/// The exceptions do not touch the last entry.
spec fn last_within_admission(st: StoreView, v: Seq<PoolEntry>) -> bool {
    &&& v.last().1.nonce < u64::MAX
    &&& is_plain(v.last().1) ==> v.last().1.sender != v.last().1.receiver
    &&& forall|a: Address| #[trigger] base_balance(st, a) + credit(v, a) <= u128::MAX
}

/// The sender of the last entry is where validation expects it: its next
/// nonce is the entry's, and it can pay the entry's amount.
proof fn lemma_sender_ready(st: StoreView, v: Seq<PoolEntry>, run: BlockRun)
    requires
        v.len() > 0,
        admitted_pool(st, v),
        run_matches(st, v.drop_last(), run),
        last_within_admission(st, v),
    ensures
        lookup(st, run, v.last().1.sender) matches Some(a) && {
            &&& Some(a) == expected_account(st, v.drop_last(), v.last().1.sender)
            &&& a.spec_after_nonce(v.last().1.nonce) == Some(Account { nonce: (a.nonce + 1) as u64, ..a })
            &&& a.balance >= v.last().1.amount
        },
{
    let w = v.drop_last();
    let tx = v.last().1;
    let s = tx.sender;
    lemma_last_entry(st, v);
    let acc = st.account(s).unwrap();
    assert(sender_shape(st, w, s));
    assert(credit(v, s) >= credit(w, s));
    assert(base_balance(st, s) + credit(v, s) <= u128::MAX);
    assert(lookup(st, run, s) == expected_account(st, w, s));
}

/// Validating the last entry of an admitted pool after the ones before it
/// succeeds, and leaves every account, anchored id and committed task as
/// the whole pool predicts.
proof fn lemma_step(st: StoreView, v: Seq<PoolEntry>, run: BlockRun, i: usize)
    requires
        v.len() > 0,
        admitted_pool(st, v),
        run_matches(st, v.drop_last(), run),
        last_within_admission(st, v),
    ensures
        tx_step(st, run, i, v.last().1) matches Ok(run2) && run_matches(st, v, run2),
{
    lemma_last_entry(st, v);
    match spec_type_payload(v.last().1).unwrap() {
        PayloadKind::Plain => lemma_step_plain(st, v, run, i),
        PayloadKind::Anchor(rc) => lemma_step_anchor(st, v, run, i, rc),
        PayloadKind::Task(k) => lemma_step_task(st, v, run, i, k),
    }
}

#[verifier::spinoff_prover]
proof fn lemma_step_plain(st: StoreView, v: Seq<PoolEntry>, run: BlockRun, i: usize)
    requires
        v.len() > 0,
        admitted_pool(st, v),
        run_matches(st, v.drop_last(), run),
        last_within_admission(st, v),
        spec_type_payload(v.last().1) == Some(PayloadKind::Plain),
    ensures
        tx_step(st, run, i, v.last().1) matches Ok(run2) && run_matches(st, v, run2),
{
    let w = v.drop_last();
    let tx = v.last().1;
    let s = tx.sender;
    let h = spec_tx_hash(tx);
    lemma_last_entry(st, v);
    lemma_ids_extend(v);
    lemma_sender_ready(st, v, run);
    let acc_k = lookup(st, run, s).unwrap();
    let acc2 = acc_k.spec_after_nonce(tx.nonce).unwrap();
    let r = tx.receiver;
    assert(lookup(st, run, r) == expected_account(st, w, r));
    assert(sender_shape(st, w, r));
    lemma_no_credit(w, r);
    let recv = match lookup(st, run, r) {
        Some(a) => a,
        None => Account::spec_new(r),
    };
    assert(credit(v, r) == credit(w, r) + tx.amount);
    assert(base_balance(st, r) + credit(v, r) <= u128::MAX);
    assert(recv.balance + tx.amount <= u128::MAX);
    assert(acc2.balance >= tx.amount);
    let s3 = Account { balance: (acc2.balance - tx.amount) as u128, ..acc2 };
    let r3 = Account { balance: (recv.balance + tx.amount) as u128, ..recv };
    assert(Account::spec_transfer(acc2, recv, tx.amount) == Some((s3, r3)));
    assert(step_transfer(st, run, i, tx, h) is Ok);
    let run2 = step_transfer(st, run, i, tx, h).unwrap();
    assert(tx_step(st, run, i, tx) == Ok::<BlockRun, ApplyBlockError>(run2));
    assert forall|a: Address| #[trigger] lookup(st, run2, a) == expected_account(st, v, a) by {
        assert(lookup(st, run, a) == expected_account(st, w, a));
        assert(sender_shape(st, w, a));
        assert(sender_shape(st, v, a));
        assert(base_balance(st, a) + credit(v, a) <= u128::MAX);
        lemma_no_credit(w, a);
    }
}

#[verifier::spinoff_prover]
proof fn lemma_step_anchor(st: StoreView, v: Seq<PoolEntry>, run: BlockRun, i: usize, rc: SpecReceipt)
    requires
        v.len() > 0,
        admitted_pool(st, v),
        run_matches(st, v.drop_last(), run),
        last_within_admission(st, v),
        spec_type_payload(v.last().1) == Some(PayloadKind::Anchor(rc)),
    ensures
        tx_step(st, run, i, v.last().1) matches Ok(run2) && run_matches(st, v, run2),
{
    let w = v.drop_last();
    let tx = v.last().1;
    let s = tx.sender;
    let h = spec_tx_hash(tx);
    lemma_last_entry(st, v);
    lemma_ids_extend(v);
    lemma_sender_ready(st, v, run);
    let acc_k = lookup(st, run, s).unwrap();
    let acc2 = acc_k.spec_after_nonce(tx.nonce).unwrap();
    let id = rc.task_id;
    assert(!has_anchor_id(w, id));
    assert(!run.anchored.contains(id));
    assert(step_anchor(st, run, i, tx, h, rc) is Ok);
    let run2 = step_anchor(st, run, i, tx, h, rc).unwrap();
    assert(tx_step(st, run, i, tx) == Ok::<BlockRun, ApplyBlockError>(run2));
    assert(run2.anchored == run.anchored.push(id));
    assert forall|x: [u8; 32]| #[trigger] run2.anchored.contains(x) <==> has_anchor_id(v, x) by {
        if run2.anchored.contains(x) {
            let j = choose|j: int| 0 <= j < run2.anchored.len() && run2.anchored[j] == x;
            if j < run.anchored.len() {
                assert(run.anchored[j] == x);
                assert(run.anchored.contains(x));
            }
        }
        if run.anchored.contains(x) {
            let j = choose|j: int| 0 <= j < run.anchored.len() && run.anchored[j] == x;
            assert(run2.anchored[j] == x);
        }
        if x == id {
            assert(run2.anchored[run.anchored.len() as int] == x);
        }
    }
    assert forall|a: Address| #[trigger] lookup(st, run2, a) == expected_account(st, v, a) by {
        assert(lookup(st, run, a) == expected_account(st, w, a));
        assert(sender_shape(st, w, a));
        assert(sender_shape(st, v, a));
        assert(base_balance(st, a) + credit(v, a) <= u128::MAX);
    }
}

#[verifier::spinoff_prover]
proof fn lemma_step_task(st: StoreView, v: Seq<PoolEntry>, run: BlockRun, i: usize, k: SpecComputeTask)
    requires
        v.len() > 0,
        admitted_pool(st, v),
        run_matches(st, v.drop_last(), run),
        last_within_admission(st, v),
        spec_type_payload(v.last().1) == Some(PayloadKind::Task(k)),
    ensures
        tx_step(st, run, i, v.last().1) matches Ok(run2) && run_matches(st, v, run2),
{
    let w = v.drop_last();
    let tx = v.last().1;
    let s = tx.sender;
    let h = spec_tx_hash(tx);
    lemma_last_entry(st, v);
    lemma_ids_extend(v);
    lemma_sender_ready(st, v, run);
    let acc_k = lookup(st, run, s).unwrap();
    let acc2 = acc_k.spec_after_nonce(tx.nonce).unwrap();
    let id = spec_task_envelope(s, k).unwrap();
    assert(compute_id(tx) == Some(id));
    assert(!has_compute_id(w, id));
    assert(!run.tasks.contains_key(id));
    assert(step_task(st, run, i, tx, h, k) is Ok);
    let run2 = step_task(st, run, i, tx, h, k).unwrap();
    assert(tx_step(st, run, i, tx) == Ok::<BlockRun, ApplyBlockError>(run2));
    assert(run2.tasks == run.tasks.insert(id, k));
    assert(pending_task_with_id(v, id) == k);
    assert forall|x: [u8; 32]| run2.tasks.contains_key(x) implies #[trigger] run2.tasks[x]
        == pending_task_with_id(v, x) by {
        if x != id {
            assert(run.tasks.contains_key(x));
            assert(run.tasks[x] == pending_task_with_id(w, x));
        }
    }
    assert forall|a: Address| #[trigger] lookup(st, run2, a) == expected_account(st, v, a) by {
        assert(lookup(st, run, a) == expected_account(st, w, a));
        assert(sender_shape(st, w, a));
        assert(sender_shape(st, v, a));
        assert(base_balance(st, a) + credit(v, a) <= u128::MAX);
    }
}

/// Dropping the last entry keeps a pool within what admission looks at.
proof fn lemma_within_drop_last(st: StoreView, v: Seq<PoolEntry>)
    requires
        v.len() > 0,
        !outside_admission(st, v),
    ensures
        !outside_admission(st, v.drop_last()),
        last_within_admission(st, v),
{
    let w = v.drop_last();
    if exists|i: int| 0 <= i < w.len() && (#[trigger] w[i]).1.nonce == u64::MAX {
        let i = choose|i: int| 0 <= i < w.len() && (#[trigger] w[i]).1.nonce == u64::MAX;
        assert(v[i] == w[i]);
    }
    if exists|i: int| 0 <= i < w.len() && is_plain((#[trigger] w[i]).1) && w[i].1.sender == w[i].1.receiver {
        let i = choose|i: int| 0 <= i < w.len() && is_plain((#[trigger] w[i]).1) && w[i].1.sender == w[i].1.receiver;
        assert(v[i] == w[i]);
    }
    assert forall|a: Address| #[trigger] base_balance(st, a) + credit(w, a) <= u128::MAX by {
        assert(base_balance(st, a) + credit(v, a) <= u128::MAX);
    }
    assert(v[v.len() - 1] == v.last());
    assert forall|a: Address| #[trigger] base_balance(st, a) + credit(v, a) <= u128::MAX by {}
}

/// A pool that admission built, outside the cases admission does not look
/// at, validates in order and reaches the state the pool predicts.
proof fn lemma_pool_runs(st: StoreView, v: Seq<PoolEntry>)
    requires
        admitted_pool(st, v),
        !outside_admission(st, v),
    ensures
        run_txs(st, pool_txs(v)) matches Ok(run) && run_matches(st, v, run),
    decreases v.len(),
{
    if v.len() == 0 {
        assert(pool_txs(v) =~= Seq::<SpecTransaction>::empty());
        assert(v =~= Seq::<PoolEntry>::empty());
        lemma_start_matches(st);
    } else {
        let w = v.drop_last();
        lemma_within_drop_last(st, v);
        lemma_pool_runs(st, w);
        assert(pool_txs(v).drop_last() =~= pool_txs(w));
        let run = run_txs(st, pool_txs(w)).unwrap();
        lemma_step(st, v, run, (v.len() - 1) as usize);
        assert(pool_txs(v).last() == v.last().1);
    }
}

/// A prefix of an admitted pool is one too, and stays within what
/// admission looks at.
proof fn lemma_admitted_prefix(st: StoreView, v: Seq<PoolEntry>, n: int)
    requires
        admitted_pool(st, v),
        !outside_admission(st, v),
        0 <= n <= v.len(),
    ensures
        admitted_pool(st, v.take(n)),
        !outside_admission(st, v.take(n)),
    decreases v.len() - n,
{
    if n == v.len() {
        assert(v.take(n) =~= v);
    } else {
        lemma_within_drop_last(st, v);
        lemma_admitted_prefix(st, v.drop_last(), n);
        assert(v.drop_last().take(n) =~= v.take(n));
    }
}

/// Every transaction a pool admitted against the committed state passes
/// every block rule, in pool order, as one block: nonces run on from the
/// committed ones, balances cover the pending debits, anchorings find
/// their tasks (committed or earlier in the pool) and no task id repeats.
/// The exceptions are the cases admission does not look at: a nonce of
/// `u64::MAX`, a transfer to oneself, and transfers that would overflow a
/// receiver's balance.
pub proof fn law_admitted_pool_applies(st: StoreView, v: Seq<PoolEntry>)
    requires
        admitted_pool(st, v),
        !outside_admission(st, v),
    ensures
        run_txs(st, pool_txs(v)) is Ok,
{
    lemma_pool_runs(st, v);
}

/// A producer whose pool admission built against its committed chain
/// produces a block: the oldest pending transactions, all of them when
/// they fit, are accepted together (the same exceptions aside).
pub proof fn law_admitted_pool_produces(st: StoreView, v: Seq<PoolEntry>, timestamp: u64)
    requires
        admitted_pool(st, v),
        !outside_admission(st, v),
        st.block_at(0) is Some,
        st.block_at(st.latest_height) is Some,
        st.latest_height < u64::MAX,
    ensures
        produce_outcome(st, v, true, timestamp) is Ok,
        v.len() <= MAX_TX_PER_BLOCK ==> (produce_outcome(st, v, true, timestamp) matches Ok((_, b))
            && b.transactions == pool_txs(v)),
{
    let sel = selected(v);
    lemma_admitted_prefix(st, v, sel.len() as int);
    lemma_pool_runs(st, sel);
    assert(Seq::new(sel.len(), |i: int| sel[i].1) =~= pool_txs(sel));
    if v.len() <= MAX_TX_PER_BLOCK {
        assert(sel =~= v);
    }
}

/// Admission keeps a pool admitted: what it lets join extends the run of
/// admissions the pool already is, and what it answers without joining
/// leaves the pool as it was.
pub proof fn law_admission_extends_admitted_pool(st: StoreView, v: Seq<PoolEntry>, tx: SpecTransaction)
    requires
        admitted_pool(st, v),
    ensures
        admission(st, v, tx) matches Ok((h, joined)) ==> admitted_pool(
            st,
            if joined { v.push((h, tx)) } else { v },
        ),
{
    if let Ok((h, joined)) = admission(st, v, tx) {
        if joined {
            assert(v.push((h, tx)).drop_last() =~= v);
        }
    }
}

} // verus!
