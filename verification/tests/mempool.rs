use mbongo::mempool::{Mempool, MempoolError};
use mbongo::model::{ComputeTask, Receipt, Transaction, TransactionPayload, TransactionType};
use mbongo::primitives as p;
use mbongo::primitives::Address;

fn make_tx(sender: u8, nonce: u64) -> (p::Hash, Transaction) {
    make_tx_with_hash(sender, nonce, sender)
}

/// Same as make_tx but with a distinct hash (for duplicate sender/nonce tests).
fn make_tx_with_hash(sender: u8, nonce: u64, hash_byte: u8) -> (p::Hash, Transaction) {
    make_tx_full(sender, nonce, hash_byte, 100)
}

/// Same as make_tx_with_hash but with a caller-chosen amount.
fn make_tx_full(sender: u8, nonce: u64, hash_byte: u8, amount: u128) -> (p::Hash, Transaction) {
    let addr = Address([sender; 32]);
    let hash = p::Hash([hash_byte; 32]);
    let tx = Transaction {
        tx_type: TransactionType::Transfer,
        sender: addr,
        receiver: Address([99u8; 32]),
        amount,
        nonce,
        payload: TransactionPayload::Empty,
        signature: [0u8; 64],
    };
    (hash, tx)
}

/// Inserts a transaction with a hash derived from its position, so a chain
/// can be built without hand-picking hash bytes.
fn insert_chain(pool: &mut Mempool, sender: u8, nonces: &[u64]) {
    for (i, n) in nonces.iter().enumerate() {
        let hash_byte = u8::try_from(i).expect("test chain fits in u8") + 100;
        let (h, tx) = make_tx_with_hash(sender, *n, hash_byte);
        pool.insert(h, tx).unwrap();
    }
}

/// Builds an `AnchorReceipt` transaction carrying the given task id.
fn make_anchor_tx(sender: u8, nonce: u64, hash_byte: u8, task_id: [u8; 32]) -> (p::Hash, Transaction) {
    let receipt = Receipt {
        version: 1,
        task_id,
        input_commitment: [0u8; 32],
        output_commitment: [0u8; 32],
        executor: Address([sender; 32]),
        metadata: vec![],
        signature: [0u8; 64],
    };
    let tx = Transaction {
        tx_type: TransactionType::AnchorReceipt,
        sender: Address([sender; 32]),
        receiver: Address::zero(),
        amount: 0,
        nonce,
        payload: TransactionPayload::AnchorReceipt(Box::new(receipt)),
        signature: [0u8; 64],
    };
    (p::Hash([hash_byte; 32]), tx)
}

/// Builds a `ComputeTask` transaction with the given salt from `sender`.
fn make_task_tx(sender: u8, nonce: u64, hash_byte: u8, salt: [u8; 32]) -> (p::Hash, Transaction, [u8; 32]) {
    let task = ComputeTask {
        version: 1,
        submitter: Address([sender; 32]),
        executor: Address([0xE0u8; 32]),
        salt,
        input_commitment: [0x1Cu8; 32],
        execution_spec: vec![1, 2, 3],
    };
    let task_id = task.task_id();
    let tx = Transaction {
        tx_type: TransactionType::ComputeTask,
        sender: Address([sender; 32]),
        receiver: Address::zero(),
        amount: 0,
        nonce,
        payload: TransactionPayload::ComputeTask(Box::new(task)),
        signature: [0u8; 64],
    };
    (p::Hash([hash_byte; 32]), tx, task_id)
}

#[test]
fn mempool_insert_and_len() {
    let mut pool = Mempool::new();
    let (h1, tx1) = make_tx(1, 0);
    pool.insert(h1, tx1).unwrap();
    assert_eq!(pool.len(), 1);
}

#[test]
fn mempool_duplicate_hash_rejected() {
    let mut pool = Mempool::new();
    let (h1, tx1) = make_tx(1, 0);
    pool.insert(h1, tx1).unwrap();
    let (_, tx2) = make_tx(2, 0);
    let err = pool.insert(h1, tx2).unwrap_err();
    assert!(matches!(err, MempoolError::DuplicateHash));
}

#[test]
fn mempool_duplicate_sender_nonce_rejected() {
    let mut pool = Mempool::new();
    let (h1, tx1) = make_tx_with_hash(1, 0, 10);
    pool.insert(h1, tx1).unwrap();
    let (h2, tx2) = make_tx_with_hash(1, 0, 11);
    let err = pool.insert(h2, tx2).unwrap_err();
    assert!(matches!(err, MempoolError::DuplicateSenderNonce));
}

#[test]
fn sender_pending_empty_expects_committed_nonce() {
    let pool = Mempool::new();
    let p = pool.sender_pending(&Address([1u8; 32]), 7);
    assert_eq!(p.expected_nonce, Some(7));
    assert_eq!(p.pending_debit, 0);
    assert_eq!(p.len, 0);
}

#[test]
fn sender_pending_contiguous_one_expects_next() {
    let mut pool = Mempool::new();
    insert_chain(&mut pool, 1, &[7]);
    let p = pool.sender_pending(&Address([1u8; 32]), 7);
    assert_eq!(p.expected_nonce, Some(8));
    assert_eq!(p.len, 1);
}

#[test]
fn sender_pending_contiguous_chain_expects_after_head() {
    let mut pool = Mempool::new();
    insert_chain(&mut pool, 1, &[7, 8, 9]);
    let p = pool.sender_pending(&Address([1u8; 32]), 7);
    assert_eq!(p.expected_nonce, Some(10));
    assert_eq!(p.len, 3);
}

#[test]
fn sender_pending_gap_expects_the_hole_not_the_maximum() {
    let mut pool = Mempool::new();
    insert_chain(&mut pool, 1, &[5, 7]);
    let p = pool.sender_pending(&Address([1u8; 32]), 5);
    assert_eq!(p.expected_nonce, Some(6), "a gap must stop the walk; max+1 would be 8");
    assert_eq!(p.len, 2, "the stranded entry still occupies memory");
}

#[test]
fn sender_pending_stale_below_committed_is_ignored_by_the_walk() {
    let mut pool = Mempool::new();
    insert_chain(&mut pool, 1, &[5]);
    let p = pool.sender_pending(&Address([1u8; 32]), 6);
    assert_eq!(p.expected_nonce, Some(6));
    assert_eq!(p.pending_debit, 0, "a stale entry is not a pending debit");
    assert_eq!(p.len, 1, "but it is still counted as a resource");
}

#[test]
fn sender_pending_stale_plus_contiguous_walks_only_the_chain() {
    let mut pool = Mempool::new();
    insert_chain(&mut pool, 1, &[5, 6, 7]);
    let p = pool.sender_pending(&Address([1u8; 32]), 6);
    assert_eq!(p.expected_nonce, Some(8));
    assert_eq!(p.pending_debit, 200, "only nonces 6 and 7 are debits");
    assert_eq!(p.len, 3);
}

#[test]
fn sender_pending_nonce_exhaustion_returns_none() {
    let mut pool = Mempool::new();
    insert_chain(&mut pool, 1, &[u64::MAX]);
    let p = pool.sender_pending(&Address([1u8; 32]), u64::MAX);
    assert_eq!(p.expected_nonce, None, "no nonce left to allocate");
}

#[test]
fn sender_pending_at_max_nonce_with_nothing_pending_is_allocatable() {
    let pool = Mempool::new();
    let p = pool.sender_pending(&Address([1u8; 32]), u64::MAX);
    assert_eq!(p.expected_nonce, Some(u64::MAX));
}

#[test]
fn sender_pending_isolates_senders() {
    let mut pool = Mempool::new();
    let (h1, tx1) = make_tx_with_hash(1, 0, 30);
    let (h2, tx2) = make_tx_with_hash(2, 0, 31);
    pool.insert(h1, tx1).unwrap();
    pool.insert(h2, tx2).unwrap();

    let a = pool.sender_pending(&Address([1u8; 32]), 0);
    let b = pool.sender_pending(&Address([3u8; 32]), 0);
    assert_eq!(a.expected_nonce, Some(1));
    assert_eq!(a.len, 1);
    assert_eq!(b.expected_nonce, Some(0), "an untouched sender is unaffected");
    assert_eq!(b.len, 0);
}

#[test]
fn sender_pending_accumulates_debit_over_the_chain() {
    let mut pool = Mempool::new();
    let (h1, tx1) = make_tx_full(1, 0, 40, 4);
    let (h2, tx2) = make_tx_full(1, 1, 41, 6);
    pool.insert(h1, tx1).unwrap();
    pool.insert(h2, tx2).unwrap();
    let p = pool.sender_pending(&Address([1u8; 32]), 0);
    assert_eq!(p.pending_debit, 10);
    assert_eq!(p.expected_nonce, Some(2));
}

#[test]
fn sender_pending_debit_saturates_instead_of_wrapping() {
    let mut pool = Mempool::new();
    let (h1, tx1) = make_tx_full(1, 0, 42, u128::MAX);
    let (h2, tx2) = make_tx_full(1, 1, 43, u128::MAX);
    pool.insert(h1, tx1).unwrap();
    pool.insert(h2, tx2).unwrap();
    let p = pool.sender_pending(&Address([1u8; 32]), 0);
    assert_eq!(p.pending_debit, u128::MAX, "saturation keeps the balance comparison fail-closed");
}

#[test]
fn sender_pending_middle_removal_produces_a_hole() {
    let mut pool = Mempool::new();
    insert_chain(&mut pool, 1, &[0, 1, 2]);
    pool.remove(&p::Hash([101u8; 32]));

    let p = pool.sender_pending(&Address([1u8; 32]), 0);
    assert_eq!(p.expected_nonce, Some(1), "the walk stops at the hole");
    assert_eq!(p.len, 2);
}

#[test]
fn sender_pending_count_returns_to_zero_after_removal() {
    let mut pool = Mempool::new();
    insert_chain(&mut pool, 1, &[0, 1]);
    pool.remove(&p::Hash([100u8; 32]));
    pool.remove(&p::Hash([101u8; 32]));
    let p = pool.sender_pending(&Address([1u8; 32]), 0);
    assert_eq!(p.len, 0);
    assert_eq!(p.expected_nonce, Some(0));
}

#[test]
fn mempool_peek_returns_in_order_without_removing() {
    let mut pool = Mempool::new();
    let (h1, tx1) = make_tx(1, 0);
    let (h2, tx2) = make_tx(2, 0);
    let (h3, tx3) = make_tx(3, 0);
    pool.insert(h1, tx1).unwrap();
    pool.insert(h2, tx2).unwrap();
    pool.insert(h3, tx3).unwrap();

    let peeked = pool.peek_for_block(2);
    assert_eq!(peeked.len(), 2);
    assert_eq!(peeked[0].0, h1);
    assert_eq!(peeked[1].0, h2);
    assert_eq!(peeked[0].1.sender.0[0], 1);
    assert_eq!(peeked[1].1.sender.0[0], 2);

    assert_eq!(pool.len(), 3);
    assert!(pool.contains_hash(&h1));
    assert!(pool.contains_hash(&h2));
    assert!(pool.contains_hash(&h3));
}

#[test]
fn mempool_peek_is_repeatable() {
    let mut pool = Mempool::new();
    insert_chain(&mut pool, 1, &[0, 1]);
    let first = pool.peek_for_block(10);
    let second = pool.peek_for_block(10);
    assert_eq!(first.len(), 2);
    assert_eq!(first, second, "a failed application must change nothing");
}

#[test]
fn mempool_remove_included_clears_every_index() {
    let mut pool = Mempool::new();
    let task_id = [0xACu8; 32];
    let (h1, tx1) = make_anchor_tx(1, 0, 22, task_id);
    pool.insert(h1, tx1).unwrap();

    let peeked = pool.peek_for_block(10);
    assert_eq!(peeked.len(), 1);
    assert!(pool.contains_task_id(&task_id), "still pending before removal");

    pool.remove_included(&[h1]);
    assert_eq!(pool.len(), 0);
    assert!(!pool.contains_hash(&h1));
    assert!(!pool.contains_task_id(&task_id));
    assert_eq!(pool.sender_pending(&Address([1u8; 32]), 0).len, 0);

    let (h2, tx2) = make_anchor_tx(1, 1, 23, task_id);
    pool.insert(h2, tx2).unwrap();
}

#[test]
fn mempool_remove_included_preserves_order_of_the_remainder() {
    let mut pool = Mempool::new();
    let (h1, tx1) = make_tx(1, 0);
    let (h2, tx2) = make_tx(2, 0);
    let (h3, tx3) = make_tx(3, 0);
    pool.insert(h1, tx1).unwrap();
    pool.insert(h2, tx2).unwrap();
    pool.insert(h3, tx3).unwrap();

    pool.remove_included(&[h1, h3]);
    let remaining = pool.peek_for_block(10);
    assert_eq!(remaining.len(), 1);
    assert_eq!(remaining[0].0, h2);
}

#[test]
fn mempool_remove_included_ignores_unknown_hashes() {
    let mut pool = Mempool::new();
    let (h1, tx1) = make_tx(1, 0);
    pool.insert(h1, tx1).unwrap();
    pool.remove_included(&[h1]);
    pool.remove_included(&[h1, p::Hash([0xEEu8; 32])]);
    assert_eq!(pool.len(), 0);
    assert_eq!(pool.sender_pending(&Address([1u8; 32]), 0).len, 0);
}

#[test]
fn mempool_remove() {
    let mut pool = Mempool::new();
    let (h1, tx1) = make_tx(1, 0);
    pool.insert(h1, tx1).unwrap();
    pool.remove(&h1);
    assert_eq!(pool.len(), 0);
    assert!(!pool.contains_hash(&h1));
}

#[test]
fn mempool_duplicate_task_id_rejected() {
    let mut pool = Mempool::new();
    let task_id = [0xABu8; 32];
    let (h1, tx1) = make_anchor_tx(1, 0, 20, task_id);
    pool.insert(h1, tx1).unwrap();
    assert!(pool.contains_task_id(&task_id));

    let (h2, tx2) = make_anchor_tx(2, 0, 21, task_id);
    let err = pool.insert(h2, tx2).unwrap_err();
    assert!(matches!(err, MempoolError::DuplicateTaskId));
    assert_eq!(pool.len(), 1);
}

#[test]
fn mempool_remove_clears_task_id_index() {
    let mut pool = Mempool::new();
    let task_id = [0xADu8; 32];
    let (h1, tx1) = make_anchor_tx(1, 0, 24, task_id);
    pool.insert(h1, tx1).unwrap();
    pool.remove(&h1);
    assert!(!pool.contains_task_id(&task_id));
    assert_eq!(pool.len(), 0);
}

#[test]
fn mempool_duplicate_compute_task_rejected() {
    let mut pool = Mempool::new();
    let (h1, tx1, task_id) = make_task_tx(1, 0, 30, [0x5Au8; 32]);
    pool.insert(h1, tx1).unwrap();
    assert!(pool.contains_compute_task_id(&task_id));
    assert!(!pool.contains_task_id(&task_id));

    let (h2, tx2, same_id) = make_task_tx(1, 1, 31, [0x5Au8; 32]);
    assert_eq!(same_id, task_id);
    let err = pool.insert(h2, tx2).unwrap_err();
    assert!(matches!(err, MempoolError::DuplicateComputeTask));
    assert_eq!(pool.len(), 1);

    let (h3, tx3, other_id) = make_task_tx(1, 1, 32, [0x5Bu8; 32]);
    assert_ne!(other_id, task_id);
    pool.insert(h3, tx3).unwrap();
    assert_eq!(pool.len(), 2);
}

#[test]
fn mempool_task_and_receipt_may_share_an_id() {
    let mut pool = Mempool::new();
    let (h1, tx1, task_id) = make_task_tx(1, 0, 33, [0x5Cu8; 32]);
    pool.insert(h1, tx1).unwrap();
    let (h2, tx2) = make_anchor_tx(2, 0, 34, task_id);
    pool.insert(h2, tx2).unwrap();
    assert!(pool.contains_compute_task_id(&task_id));
    assert!(pool.contains_task_id(&task_id));
    assert_eq!(pool.len(), 2);
}

#[test]
fn mempool_remove_clears_compute_task_index() {
    let mut pool = Mempool::new();
    let (h1, tx1, task_id) = make_task_tx(1, 0, 35, [0x5Du8; 32]);
    pool.insert(h1, tx1).unwrap();
    pool.remove_included(&[h1]);
    assert!(!pool.contains_compute_task_id(&task_id));
    assert_eq!(pool.len(), 0);
    let (h2, tx2, _) = make_task_tx(1, 0, 36, [0x5Du8; 32]);
    pool.insert(h2, tx2).unwrap();
}

#[test]
fn mempool_pending_compute_task_returns_the_committed_task() {
    let mut pool = Mempool::new();
    let (h1, tx1, task_id) = make_task_tx(4, 0, 37, [0x5Eu8; 32]);
    pool.insert(h1, tx1).unwrap();
    let task = pool.pending_compute_task(&task_id).expect("pending");
    assert_eq!(task.salt, [0x5Eu8; 32]);
    assert_eq!(task.submitter, Address([4u8; 32]));
    assert!(pool.pending_compute_task(&[0u8; 32]).is_none());
}
