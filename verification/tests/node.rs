use ed25519_dalek::{Signer, SigningKey};
use mbongo::admission::{SubmitError, MAX_PENDING_PER_SENDER};
use mbongo::backend::{ApiError, BackendError, NodeBackend, DEV_BALANCE};
use mbongo::codec::{encode_task, signing_payload};
use mbongo::crypto::{compute_block_hash, compute_transactions_root, compute_tx_hash, dev_address};
use mbongo::mempool::MempoolError;
use mbongo::model::{
    Account, Block, BlockBody, BlockHeader, ComputeTask, Receipt, Transaction, TransactionPayload, TransactionType,
    COMPUTE_TASK_VERSION, MAX_EXECUTION_SPEC_BYTES,
};
use mbongo::primitives as p;
use mbongo::primitives::Address;
use mbongo::rules::ApplyBlockError;
use mbongo::storage::{BatchOp, InMemoryStorage, Storage};

fn now_secs() -> u64 {
    std::time::SystemTime::now().duration_since(std::time::UNIX_EPOCH).unwrap().as_secs()
}

fn make_backend() -> NodeBackend<InMemoryStorage> {
    NodeBackend::new(InMemoryStorage::new(), true)
}

fn genesis_backend() -> NodeBackend<InMemoryStorage> {
    let mut backend = make_backend();
    backend.ensure_genesis().unwrap();
    backend
}

fn addr_of(sk: &SigningKey) -> Address {
    Address(sk.verifying_key().to_bytes())
}

fn resign(sk: &SigningKey, tx: &mut Transaction) {
    tx.signature = sk.sign(&signing_payload(tx)).to_bytes();
}

fn signed_transfer(sender_sk: &SigningKey, receiver_addr: Address, amount: u128, nonce: u64) -> Transaction {
    let mut tx = Transaction {
        tx_type: TransactionType::Transfer,
        sender: addr_of(sender_sk),
        receiver: receiver_addr,
        amount,
        nonce,
        payload: TransactionPayload::Empty,
        signature: [0u8; 64],
    };
    resign(sender_sk, &mut tx);
    tx
}

fn sample_block() -> (p::Hash, Block) {
    let hash = p::Hash([5u8; 32]);
    let block = Block {
        header: BlockHeader {
            parent_hash: p::Hash::zero(),
            state_root: p::Hash::zero(),
            transactions_root: p::Hash::zero(),
            timestamp: 1_700_000_000,
            height: 1,
        },
        body: BlockBody {
            transactions: vec![Transaction {
                tx_type: TransactionType::Transfer,
                sender: Address::zero(),
                receiver: Address([6u8; 32]),
                amount: 50,
                nonce: 0,
                payload: TransactionPayload::Empty,
                signature: [0u8; 64],
            }],
        },
    };
    (hash, block)
}

fn sample_tx() -> (p::Hash, Transaction) {
    let hash = p::Hash([2u8; 32]);
    let tx = Transaction {
        tx_type: TransactionType::Transfer,
        sender: Address([3u8; 32]),
        receiver: Address([4u8; 32]),
        amount: 100,
        nonce: 0,
        payload: TransactionPayload::Empty,
        signature: [0u8; 64],
    };
    (hash, tx)
}

fn build_valid_block(backend: &NodeBackend<InMemoryStorage>, txs: Vec<Transaction>) -> Block {
    let current_height = backend.storage.get_latest_height().unwrap();
    let parent = backend.storage.get_block_by_height(current_height).unwrap().unwrap();
    Block {
        header: BlockHeader {
            parent_hash: compute_block_hash(&parent),
            state_root: p::Hash::zero(),
            transactions_root: compute_transactions_root(&txs),
            timestamp: now_secs(),
            height: current_height + 1,
        },
        body: BlockBody { transactions: txs },
    }
}

fn signed_receipt_for(executor_sk: &SigningKey, task_id: [u8; 32], metadata: Vec<u8>, version: u8) -> Receipt {
    let mut receipt = Receipt {
        version,
        task_id,
        input_commitment: [1u8; 32],
        output_commitment: [2u8; 32],
        executor: addr_of(executor_sk),
        metadata,
        signature: [0u8; 64],
    };
    receipt.signature = executor_sk.sign(&receipt.receipt_hash()).to_bytes();
    receipt
}

fn signed_anchor_tx(sk: &SigningKey, nonce: u64, receipt: Receipt) -> Transaction {
    let mut tx = Transaction {
        tx_type: TransactionType::AnchorReceipt,
        sender: addr_of(sk),
        receiver: Address::zero(),
        amount: 0,
        nonce,
        payload: TransactionPayload::AnchorReceipt(Box::new(receipt)),
        signature: [0u8; 64],
    };
    resign(sk, &mut tx);
    tx
}

fn valid_anchor_tx(sk: &SigningKey, nonce: u64, task_id: [u8; 32]) -> Transaction {
    signed_anchor_tx(sk, nonce, signed_receipt_for(sk, task_id, vec![1, 2, 3], 1))
}

fn seed_task(backend: &mut NodeBackend<InMemoryStorage>, executor_sk: &SigningKey, salt: [u8; 32]) -> [u8; 32] {
    let task = ComputeTask {
        version: COMPUTE_TASK_VERSION,
        submitter: Address([0xC1u8; 32]),
        executor: addr_of(executor_sk),
        salt,
        input_commitment: [1u8; 32],
        execution_spec: Vec::new(),
    };
    let task_id = task.task_id();
    backend.storage.write_batch(vec![BatchOp::PutTask(task_id, encode_task(&task))]).unwrap();
    task_id
}

fn fund(backend: &mut NodeBackend<InMemoryStorage>, sk: &SigningKey, balance: u128) -> Address {
    fund_with_nonce(backend, sk, balance, 0)
}

fn fund_with_nonce(backend: &mut NodeBackend<InMemoryStorage>, sk: &SigningKey, balance: u128, nonce: u64) -> Address {
    let addr = addr_of(sk);
    let mut acc = Account::new(addr);
    acc.balance = balance;
    acc.nonce = nonce;
    backend.storage.put_account(&addr, &acc).unwrap();
    addr
}

fn task_for(submitter: Address, executor: Address, salt: [u8; 32], execution_spec: Vec<u8>) -> ComputeTask {
    ComputeTask { version: COMPUTE_TASK_VERSION, submitter, executor, salt, input_commitment: [0x1Cu8; 32], execution_spec }
}

fn signed_task_tx(sk: &SigningKey, nonce: u64, task: ComputeTask) -> Transaction {
    let mut tx = Transaction {
        tx_type: TransactionType::ComputeTask,
        sender: addr_of(sk),
        receiver: Address::zero(),
        amount: 0,
        nonce,
        payload: TransactionPayload::ComputeTask(Box::new(task)),
        signature: [0u8; 64],
    };
    resign(sk, &mut tx);
    tx
}

fn executor_addr() -> Address {
    addr_of(&SigningKey::from_bytes(&[0xE1u8; 32]))
}

fn valid_task_tx(sk: &SigningKey, nonce: u64, salt: [u8; 32]) -> Transaction {
    signed_task_tx(sk, nonce, task_for(addr_of(sk), executor_addr(), salt, vec![1, 2, 3]))
}

fn task_of(tx: &Transaction) -> &ComputeTask {
    match &tx.payload {
        TransactionPayload::ComputeTask(task) => task,
        _ => panic!("expected a ComputeTask payload"),
    }
}

// ── Queries ─────────────────────────────────────────────────────────

#[test]
fn rpc_block_height_returns_zero() {
    let backend = make_backend();
    assert_eq!(backend.get_block_height().unwrap(), 0);
}

#[test]
fn api_list_blocks_returns_empty() {
    let backend = make_backend();
    let blocks = backend.list_blocks(10).unwrap();
    assert!(blocks.is_empty());
}

#[test]
fn api_list_validators_returns_empty() {
    let backend = make_backend();
    assert!(backend.list_validators().is_empty());
}

#[test]
fn api_get_block_not_found() {
    let backend = make_backend();
    assert_eq!(backend.get_block(p::Hash::zero()), Err(ApiError::NotFound));
}

#[test]
fn api_get_block_roundtrip() {
    let mut backend = make_backend();
    let (hash, block) = sample_block();
    backend.storage.put_block(&hash, &block).unwrap();

    let detail = backend.get_block(hash).unwrap();
    assert_eq!(detail.height, 1);
    assert_eq!(detail.timestamp, 1_700_000_000);
    assert_eq!(detail.tx_count, 1);
    assert_eq!(detail.hash, hash);
    assert_eq!(detail.parent_hash, p::Hash::zero());
}

#[test]
fn api_get_transaction_not_found() {
    let backend = make_backend();
    assert_eq!(backend.get_transaction(p::Hash::zero()), Err(ApiError::NotFound));
}

#[test]
fn api_get_transaction_roundtrip() {
    let mut backend = make_backend();
    let (hash, tx) = sample_tx();
    backend.storage.put_transaction(&hash, &tx).unwrap();

    let detail = backend.get_transaction(hash).unwrap();
    assert_eq!(detail.hash, hash);
    assert_eq!(detail.from, Address([3u8; 32]));
    assert_eq!(detail.to, Some(Address([4u8; 32])));
    assert_eq!(detail.value, 100);
}

#[test]
fn api_get_account_not_found() {
    let backend = make_backend();
    assert_eq!(backend.get_account(Address::zero()), Err(ApiError::NotFound));
}

#[test]
fn api_get_account_roundtrip() {
    let mut backend = make_backend();
    let addr = Address([1u8; 32]);
    let mut account = Account::new(addr);
    account.balance = 42_000;
    account.nonce = 3;
    backend.storage.put_account(&addr, &account).unwrap();

    let loaded = backend.get_account(addr).unwrap();
    assert_eq!(loaded.address, addr);
    assert_eq!(loaded.balance, 42_000);
    assert_eq!(loaded.nonce, 3);
}

#[test]
fn get_block_by_height_returns_block() {
    let backend = genesis_backend();
    let block = backend.get_block_by_height(0).unwrap();
    assert_eq!(block.header.height, 0);
    assert!(block.body.transactions.is_empty());
}

#[test]
fn get_block_by_height_not_found() {
    let backend = genesis_backend();
    assert_eq!(backend.get_block_by_height(999), Err(BackendError::BlockNotFound(999)));
}

// ── Genesis ─────────────────────────────────────────────────────────

#[test]
fn ensure_genesis_creates_block_at_height_zero() {
    let backend = genesis_backend();
    assert_eq!(backend.get_block_height().unwrap(), 0);

    let block = backend.storage.get_block_by_height(0).unwrap().expect("genesis block");
    assert_eq!(block.header.height, 0);
    assert_eq!(block.header.parent_hash, p::Hash::zero());
    assert_eq!(block.header.timestamp, 0);
    assert!(block.body.transactions.is_empty());
}

#[test]
fn ensure_genesis_is_idempotent() {
    let mut backend = genesis_backend();
    let genesis = backend.storage.get_block_by_height(0).unwrap();
    backend.ensure_genesis().unwrap();
    assert_eq!(backend.get_block_height().unwrap(), 0);
    assert_eq!(backend.storage.get_block_by_height(0).unwrap(), genesis);
}

#[test]
fn ensure_genesis_creates_dev_account() {
    let backend = genesis_backend();
    let sk = SigningKey::from_bytes(&[0xAAu8; 32]);
    let dev_addr = addr_of(&sk);
    assert_eq!(dev_address(), dev_addr);
    let account = backend.storage.get_account(&dev_addr).unwrap().expect("dev account should exist after genesis");
    assert_eq!(account.balance, 1_000_000_000);
    assert_eq!(account.balance, DEV_BALANCE);
    assert_eq!(account.nonce, 0);
}

#[test]
fn ensure_genesis_keeps_an_existing_dev_account() {
    let mut backend = make_backend();
    let dev = dev_address();
    let mut acc = Account::new(dev);
    acc.balance = 7;
    backend.storage.put_account(&dev, &acc).unwrap();
    backend.ensure_genesis().unwrap();
    assert_eq!(backend.storage.get_account(&dev).unwrap().unwrap().balance, 7);
}

// ── Block production ────────────────────────────────────────────────

#[test]
fn produce_block_creates_height_one() {
    let mut backend = genesis_backend();

    let (hash, produced) = backend.produce_block().unwrap();
    assert_eq!(hash, compute_block_hash(&produced));
    assert_eq!(backend.get_block_height().unwrap(), 1);

    let block = backend.storage.get_block_by_height(1).unwrap().expect("block at height 1");
    assert_eq!(block.header.height, 1);
    assert!(block.body.transactions.is_empty());

    let genesis = backend.storage.get_block_by_height(0).unwrap().unwrap();
    assert_eq!(block.header.parent_hash, compute_block_hash(&genesis));
}

#[test]
fn produce_block_increments_height() {
    let mut backend = genesis_backend();

    backend.produce_block().unwrap();
    backend.produce_block().unwrap();
    backend.produce_block().unwrap();

    assert_eq!(backend.get_block_height().unwrap(), 3);

    let block2 = backend.storage.get_block_by_height(2).unwrap().unwrap();
    let block3 = backend.storage.get_block_by_height(3).unwrap().unwrap();
    assert_eq!(block3.header.parent_hash, compute_block_hash(&block2));
}

#[test]
fn produce_block_fails_without_genesis() {
    let mut backend = make_backend();
    assert_eq!(backend.produce_block().unwrap_err(), BackendError::GenesisRequired);
}

#[test]
fn api_list_blocks_after_genesis_and_produce() {
    let mut backend = genesis_backend();
    backend.produce_block().unwrap();

    let blocks = backend.list_blocks(10).unwrap();
    assert_eq!(blocks.len(), 2);
    assert_eq!(blocks[0].height, 1);
    assert_eq!(blocks[1].height, 0);
}

#[test]
fn non_producer_cannot_produce_block() {
    let mut backend = NodeBackend::new(InMemoryStorage::new(), false);
    backend.ensure_genesis().unwrap();
    assert_eq!(backend.produce_block().unwrap_err(), BackendError::NotProducer);
}

#[test]
fn producer_can_produce_block() {
    let mut backend = NodeBackend::new(InMemoryStorage::new(), true);
    backend.ensure_genesis().unwrap();
    assert!(backend.produce_block().is_ok());
    assert_eq!(backend.get_block_height().unwrap(), 1);
}

#[test]
fn get_latest_block_hash_returns_genesis_hash() {
    let backend = genesis_backend();
    let hash = backend.get_latest_block_hash().unwrap();
    let genesis = backend.storage.get_block_by_height(0).unwrap().unwrap();
    assert_eq!(hash, compute_block_hash(&genesis));
}

#[test]
fn get_latest_block_hash_changes_after_produce() {
    let mut backend = genesis_backend();
    let hash0 = backend.get_latest_block_hash().unwrap();
    backend.produce_block().unwrap();
    let hash1 = backend.get_latest_block_hash().unwrap();
    assert_ne!(hash0, hash1, "tip hash should change after produce_block");
}

#[test]
fn replay_reproduces_tip_hash() {
    let mut backend_a = genesis_backend();
    for _ in 0..5 {
        backend_a.produce_block().unwrap();
    }
    let chain_height = backend_a.get_block_height().unwrap();
    let chain_tip = backend_a.get_latest_block_hash().unwrap();
    assert_eq!(chain_height, 5);

    let mut blocks = Vec::new();
    for h in 0..=chain_height {
        blocks.push(backend_a.storage.get_block_by_height(h).unwrap().unwrap());
    }

    let mut backend_b = genesis_backend();
    for block in &blocks[1..] {
        backend_b.apply_block(block).unwrap();
    }

    assert_eq!(backend_b.get_block_height().unwrap(), chain_height);
    assert_eq!(backend_b.get_latest_block_hash().unwrap(), chain_tip);
}

#[test]
fn replay_height_matches() {
    let mut backend_a = genesis_backend();
    for _ in 0..3 {
        backend_a.produce_block().unwrap();
    }
    let mut blocks = Vec::new();
    for h in 0..=3 {
        blocks.push(backend_a.storage.get_block_by_height(h).unwrap().unwrap());
    }
    let mut backend_b = genesis_backend();
    for block in &blocks[1..] {
        backend_b.apply_block(block).unwrap();
    }
    assert_eq!(backend_b.get_block_height().unwrap(), 3);
}

// ── Submission and inclusion ────────────────────────────────────────

#[test]
fn submit_tx_success_updates_balances() {
    let mut backend = genesis_backend();
    let sender_sk = SigningKey::from_bytes(&[1u8; 32]);
    let sender_addr = fund(&mut backend, &sender_sk, 1000);
    let receiver_addr = Address([9u8; 32]);

    let tx = signed_transfer(&sender_sk, receiver_addr, 300, 0);
    let expected = compute_tx_hash(&tx);
    let hash = backend.submit_transaction(tx).unwrap();
    assert_eq!(hash, expected);

    backend.produce_block().unwrap();

    let s = backend.storage.get_account(&sender_addr).unwrap().unwrap();
    assert_eq!(s.balance, 700);
    assert_eq!(s.nonce, 1);
    let r = backend.storage.get_account(&receiver_addr).unwrap().unwrap();
    assert_eq!(r.balance, 300);
    assert_eq!(r.nonce, 0);
}

#[test]
fn submit_tx_nonce_mismatch_fails() {
    let mut backend = make_backend();
    let sender_sk = SigningKey::from_bytes(&[2u8; 32]);
    fund(&mut backend, &sender_sk, 1000);
    let tx = signed_transfer(&sender_sk, Address([10u8; 32]), 100, 5);
    assert_eq!(backend.submit_transaction(tx), Err(SubmitError::InvalidNonce { expected: 0 }));
}

#[test]
fn submit_tx_insufficient_balance_fails() {
    let mut backend = make_backend();
    let sender_sk = SigningKey::from_bytes(&[3u8; 32]);
    fund(&mut backend, &sender_sk, 50);
    let tx = signed_transfer(&sender_sk, Address([11u8; 32]), 100, 0);
    assert_eq!(backend.submit_transaction(tx), Err(SubmitError::InsufficientBalance));
}

#[test]
fn submit_tx_duplicate_returns_same_hash() {
    let mut backend = genesis_backend();
    let sender_sk = SigningKey::from_bytes(&[4u8; 32]);
    let sender_addr = fund(&mut backend, &sender_sk, 1000);

    let tx = signed_transfer(&sender_sk, Address([12u8; 32]), 200, 0);
    let hash1 = backend.submit_transaction(tx.clone()).unwrap();
    let hash2 = backend.submit_transaction(tx).unwrap();
    assert_eq!(hash1, hash2);

    backend.produce_block().unwrap();
    let s = backend.storage.get_account(&sender_addr).unwrap().unwrap();
    assert_eq!(s.balance, 800);
}

#[test]
fn submit_tx_invalid_signature_fails() {
    let mut backend = make_backend();
    let sender_sk = SigningKey::from_bytes(&[5u8; 32]);
    fund(&mut backend, &sender_sk, 1000);
    let mut tx = signed_transfer(&sender_sk, Address([13u8; 32]), 100, 0);
    tx.amount = 999;
    assert_eq!(backend.submit_transaction(tx), Err(SubmitError::InvalidSignature));
}

#[test]
fn produce_block_includes_submitted_transactions() {
    let mut backend = genesis_backend();
    let sender_sk = SigningKey::from_bytes(&[10u8; 32]);
    fund(&mut backend, &sender_sk, 10_000);
    let receiver_addr = Address([20u8; 32]);

    for (nonce, amount) in [(0u64, 100u128), (1, 200), (2, 300)] {
        backend.submit_transaction(signed_transfer(&sender_sk, receiver_addr, amount, nonce)).unwrap();
        backend.produce_block().unwrap();
    }

    for (height, amount) in [(1u64, 100u128), (2, 200), (3, 300)] {
        let block = backend.storage.get_block_by_height(height).unwrap().expect("block");
        assert_eq!(block.body.transactions.len(), 1);
        assert_eq!(block.body.transactions[0].amount, amount);
    }
}

#[test]
fn produce_block_second_block_has_no_duplicates() {
    let mut backend = genesis_backend();
    let sender_sk = SigningKey::from_bytes(&[11u8; 32]);
    fund(&mut backend, &sender_sk, 10_000);
    let receiver_addr = Address([21u8; 32]);

    backend.submit_transaction(signed_transfer(&sender_sk, receiver_addr, 100, 0)).unwrap();
    backend.produce_block().unwrap();
    backend.submit_transaction(signed_transfer(&sender_sk, receiver_addr, 200, 1)).unwrap();
    backend.produce_block().unwrap();
    backend.produce_block().unwrap();

    assert_eq!(backend.storage.get_block_by_height(1).unwrap().unwrap().body.transactions.len(), 1);
    assert_eq!(backend.storage.get_block_by_height(2).unwrap().unwrap().body.transactions.len(), 1);
    assert_eq!(backend.storage.get_block_by_height(3).unwrap().unwrap().body.transactions.len(), 0);
}

#[test]
fn submit_tx_inserts_into_mempool_not_storage() {
    let mut backend = genesis_backend();
    let sender_sk = SigningKey::from_bytes(&[30u8; 32]);
    fund(&mut backend, &sender_sk, 5000);

    let tx = signed_transfer(&sender_sk, Address([31u8; 32]), 100, 0);
    let tx_hash = compute_tx_hash(&tx);
    backend.submit_transaction(tx).unwrap();
    assert!(backend.storage.get_transaction(&tx_hash).unwrap().is_none());

    backend.produce_block().unwrap();
    assert!(backend.storage.get_transaction(&tx_hash).unwrap().is_some());
}

#[test]
fn submit_tx_duplicate_sender_nonce_rejected() {
    let mut backend = genesis_backend();
    let sender_sk = SigningKey::from_bytes(&[34u8; 32]);
    fund(&mut backend, &sender_sk, 2000);

    backend.submit_transaction(signed_transfer(&sender_sk, Address([35u8; 32]), 100, 0)).unwrap();
    let tx2 = signed_transfer(&sender_sk, Address([36u8; 32]), 200, 0);
    assert_eq!(backend.submit_transaction(tx2), Err(SubmitError::InvalidNonce { expected: 1 }));
}

#[test]
fn produce_block_applies_all_state_atomically() {
    let mut backend = genesis_backend();
    let sk_a = SigningKey::from_bytes(&[40u8; 32]);
    let sk_b = SigningKey::from_bytes(&[41u8; 32]);
    let addr_a = fund(&mut backend, &sk_a, 5000);
    let addr_b = fund(&mut backend, &sk_b, 3000);
    let receiver = Address([42u8; 32]);

    backend.submit_transaction(signed_transfer(&sk_a, receiver, 100, 0)).unwrap();
    backend.submit_transaction(signed_transfer(&sk_b, receiver, 200, 0)).unwrap();
    backend.produce_block().unwrap();

    let block = backend.storage.get_block_by_height(1).unwrap().expect("block 1");
    assert_eq!(block.body.transactions.len(), 2);
    let final_a = backend.storage.get_account(&addr_a).unwrap().unwrap();
    assert_eq!((final_a.balance, final_a.nonce), (4900, 1));
    let final_b = backend.storage.get_account(&addr_b).unwrap().unwrap();
    assert_eq!((final_b.balance, final_b.nonce), (2800, 1));
    assert_eq!(backend.storage.get_account(&receiver).unwrap().unwrap().balance, 300);
    assert_eq!(backend.get_block_height().unwrap(), 1);
    assert!(backend.storage.get_block(&compute_block_hash(&block)).unwrap().is_some());
}

// ── Admission of anchors and tasks ──────────────────────────────────

#[test]
fn submit_anchor_valid_accepted() {
    let mut backend = genesis_backend();
    let sk = SigningKey::from_bytes(&[60u8; 32]);
    fund(&mut backend, &sk, 5000);
    let task_id = seed_task(&mut backend, &sk, [0x80u8; 32]);
    backend.submit_transaction(valid_anchor_tx(&sk, 0, task_id)).unwrap();
    assert_eq!(backend.mempool.len(), 1);
}

#[test]
fn submit_anchor_wrong_pairing_rejected() {
    let mut backend = genesis_backend();
    let sk = SigningKey::from_bytes(&[60u8; 32]);
    fund(&mut backend, &sk, 5000);
    let mut tx = valid_anchor_tx(&sk, 0, [0x81u8; 32]);
    tx.payload = TransactionPayload::Empty;
    resign(&sk, &mut tx);
    assert_eq!(backend.submit_transaction(tx), Err(SubmitError::PayloadMismatch));
    assert_eq!(backend.mempool.len(), 0);
}

#[test]
fn submit_anchor_sender_executor_mismatch_rejected() {
    let mut backend = genesis_backend();
    let sk = SigningKey::from_bytes(&[60u8; 32]);
    fund(&mut backend, &sk, 5000);
    let other = SigningKey::from_bytes(&[61u8; 32]);
    let tx = signed_anchor_tx(&sk, 0, signed_receipt_for(&other, [0x82u8; 32], vec![], 1));
    assert_eq!(backend.submit_transaction(tx), Err(SubmitError::SenderExecutorMismatch));
    assert_eq!(backend.mempool.len(), 0);
}

#[test]
fn submit_anchor_bad_receipt_signature_rejected() {
    let mut backend = genesis_backend();
    let sk = SigningKey::from_bytes(&[60u8; 32]);
    fund(&mut backend, &sk, 5000);
    let receipt = signed_receipt_for(&sk, [0x83u8; 32], vec![], 1);
    let tx = signed_anchor_tx(&sk, 0, Receipt { signature: [0xEEu8; 64], ..receipt });
    assert_eq!(backend.submit_transaction(tx), Err(SubmitError::InvalidReceiptSignature));
    assert_eq!(backend.mempool.len(), 0);
}

#[test]
fn submit_anchor_persistent_duplicate_rejected() {
    let mut backend = genesis_backend();
    let sk = SigningKey::from_bytes(&[60u8; 32]);
    fund(&mut backend, &sk, 5000);
    let task_id = seed_task(&mut backend, &sk, [0x84u8; 32]);
    let block = build_valid_block(&backend, vec![valid_anchor_tx(&sk, 0, task_id)]);
    backend.apply_block(&block).unwrap();

    assert_eq!(backend.submit_transaction(valid_anchor_tx(&sk, 1, task_id)), Err(SubmitError::TaskIdAlreadyAnchored));
    assert_eq!(backend.mempool.len(), 0);
}

#[test]
fn resubmit_identical_anchored_tx_rejected() {
    let mut backend = genesis_backend();
    let sk = SigningKey::from_bytes(&[60u8; 32]);
    fund(&mut backend, &sk, 5000);
    let task_id = seed_task(&mut backend, &sk, [0x97u8; 32]);
    let anchor = valid_anchor_tx(&sk, 0, task_id);
    let block = build_valid_block(&backend, vec![anchor.clone()]);
    backend.apply_block(&block).unwrap();

    assert_eq!(backend.submit_transaction(anchor), Err(SubmitError::TaskIdAlreadyAnchored));
    assert_eq!(backend.mempool.len(), 0);
}

#[test]
fn submit_anchor_pending_duplicate_rejected() {
    let mut backend = genesis_backend();
    let sk = SigningKey::from_bytes(&[60u8; 32]);
    fund(&mut backend, &sk, 5000);
    let task_id = seed_task(&mut backend, &sk, [0x85u8; 32]);

    backend.submit_transaction(valid_anchor_tx(&sk, 0, task_id)).unwrap();
    let second = signed_receipt_for(&sk, task_id, vec![9, 9], 1);
    assert_eq!(backend.submit_transaction(signed_anchor_tx(&sk, 1, second)), Err(SubmitError::TaskIdPending));
    let other = SigningKey::from_bytes(&[61u8; 32]);
    fund(&mut backend, &other, 100);
    assert_eq!(
        backend.submit_transaction(valid_anchor_tx(&other, 0, task_id)),
        Err(SubmitError::ReceiptExecutorNotAuthorised)
    );
    assert_eq!(backend.mempool.len(), 1);
}

#[test]
fn produce_block_anchors_submitted_receipt() {
    let mut backend = genesis_backend();
    let sk = SigningKey::from_bytes(&[60u8; 32]);
    fund(&mut backend, &sk, 5000);
    let task_id = seed_task(&mut backend, &sk, [0x86u8; 32]);

    backend.submit_transaction(valid_anchor_tx(&sk, 0, task_id)).unwrap();
    backend.produce_block().unwrap();

    assert_eq!(backend.storage.get_latest_height().unwrap(), 1);
    assert!(backend.storage.has_receipt(&task_id).unwrap());
    assert_eq!(backend.mempool.len(), 0);
}

#[test]
fn submit_compute_task_admitted_and_included() {
    let mut backend = genesis_backend();
    let sk = SigningKey::from_bytes(&[70u8; 32]);
    let sender = fund(&mut backend, &sk, 5000);

    let tx = valid_task_tx(&sk, 0, [0x20u8; 32]);
    let task_id = task_of(&tx).task_id();
    let hash = backend.submit_transaction(tx.clone()).unwrap();
    assert_eq!(backend.submit_transaction(tx.clone()).unwrap(), hash);
    assert_eq!(backend.submit_transaction(valid_task_tx(&sk, 1, [0x20u8; 32])), Err(SubmitError::ComputeTaskPending));
    backend.submit_transaction(valid_task_tx(&sk, 1, [0x21u8; 32])).unwrap();

    backend.produce_block().unwrap();
    assert!(backend.storage.has_task(&task_id).unwrap());
    let acc = backend.storage.get_account(&sender).unwrap().unwrap();
    assert_eq!((acc.nonce, acc.balance), (2, 5000));

    assert_eq!(backend.submit_transaction(tx), Err(SubmitError::TaskAlreadyRegistered));
    assert_eq!(backend.submit_transaction(valid_task_tx(&sk, 2, [0x20u8; 32])), Err(SubmitError::TaskAlreadyRegistered));
}

#[test]
fn submit_compute_task_rejections_mirror_apply_block() {
    let mut backend = genesis_backend();
    let sk = SigningKey::from_bytes(&[70u8; 32]);
    fund(&mut backend, &sk, 5000);
    let base = || task_of(&valid_task_tx(&sk, 0, [0x22u8; 32])).clone();

    let mut legacy = signed_transfer(&sk, Address([9u8; 32]), 1, 0);
    legacy.tx_type = TransactionType::ComputeTask;
    resign(&sk, &mut legacy);
    assert_eq!(backend.submit_transaction(legacy), Err(SubmitError::PayloadMismatch));

    let mut tx = signed_task_tx(&sk, 0, base());
    tx.amount = 1;
    resign(&sk, &mut tx);
    assert_eq!(backend.submit_transaction(tx), Err(SubmitError::TaskFieldConstraint));

    let mut tx = signed_task_tx(&sk, 0, base());
    tx.signature[1] ^= 0x01;
    assert_eq!(backend.submit_transaction(tx), Err(SubmitError::InvalidSignature));

    let mut task = base();
    task.version = 2;
    assert_eq!(backend.submit_transaction(signed_task_tx(&sk, 0, task)), Err(SubmitError::TaskVersionUnsupported));

    let mut task = base();
    task.execution_spec = vec![0; MAX_EXECUTION_SPEC_BYTES + 1];
    assert_eq!(backend.submit_transaction(signed_task_tx(&sk, 0, task)), Err(SubmitError::ExecutionSpecTooLarge));

    let mut task = base();
    task.submitter = Address([0x77u8; 32]);
    assert_eq!(backend.submit_transaction(signed_task_tx(&sk, 0, task)), Err(SubmitError::SenderSubmitterMismatch));

    assert_eq!(backend.mempool.len(), 0);
}

// ── Pending-aware admission ─────────────────────────────────────────

#[test]
fn submit_accepts_first_nonce_with_empty_pending() {
    let mut backend = genesis_backend();
    let sk = SigningKey::from_bytes(&[80u8; 32]);
    fund(&mut backend, &sk, 10_000);
    backend.submit_transaction(signed_transfer(&sk, Address([1u8; 32]), 10, 0)).unwrap();
    assert_eq!(backend.mempool.len(), 1);
}

#[test]
fn submit_accepts_successor_while_predecessor_pending() {
    let mut backend = genesis_backend();
    let sk = SigningKey::from_bytes(&[81u8; 32]);
    fund(&mut backend, &sk, 10_000);
    backend.submit_transaction(signed_transfer(&sk, Address([1u8; 32]), 10, 0)).unwrap();
    backend.submit_transaction(signed_transfer(&sk, Address([1u8; 32]), 20, 1)).unwrap();
    assert_eq!(backend.mempool.len(), 2);
}

#[test]
fn submit_accepts_three_deep_pending_chain() {
    let mut backend = genesis_backend();
    let sk = SigningKey::from_bytes(&[82u8; 32]);
    let addr = fund(&mut backend, &sk, 10_000);
    for nonce in 0..3u64 {
        backend.submit_transaction(signed_transfer(&sk, Address([1u8; 32]), 10, nonce)).unwrap();
    }
    assert_eq!(backend.mempool.len(), 3);
    let pending = backend.mempool.sender_pending(&addr, 0);
    assert_eq!(pending.expected_nonce, Some(3));
    assert_eq!(pending.len, 3);
}

#[test]
fn submit_rejects_gap_with_empty_pending() {
    let mut backend = genesis_backend();
    let sk = SigningKey::from_bytes(&[83u8; 32]);
    fund(&mut backend, &sk, 10_000);
    assert_eq!(
        backend.submit_transaction(signed_transfer(&sk, Address([1u8; 32]), 10, 1)),
        Err(SubmitError::InvalidNonce { expected: 0 })
    );
    assert_eq!(backend.mempool.len(), 0);
}

#[test]
fn submit_rejects_gap_beyond_pending_chain() {
    let mut backend = genesis_backend();
    let sk = SigningKey::from_bytes(&[84u8; 32]);
    fund(&mut backend, &sk, 10_000);
    backend.submit_transaction(signed_transfer(&sk, Address([1u8; 32]), 10, 0)).unwrap();
    assert_eq!(
        backend.submit_transaction(signed_transfer(&sk, Address([1u8; 32]), 10, 2)),
        Err(SubmitError::InvalidNonce { expected: 1 })
    );
    assert_eq!(backend.mempool.len(), 1);
}

#[test]
fn submit_rejects_stale_nonce_below_committed() {
    let mut backend = genesis_backend();
    let sk = SigningKey::from_bytes(&[85u8; 32]);
    fund(&mut backend, &sk, 10_000);
    backend.submit_transaction(signed_transfer(&sk, Address([1u8; 32]), 10, 0)).unwrap();
    backend.produce_block().unwrap();
    assert_eq!(
        backend.submit_transaction(signed_transfer(&sk, Address([2u8; 32]), 10, 0)),
        Err(SubmitError::InvalidNonce { expected: 1 })
    );
}

#[test]
fn submit_exact_resubmission_stays_idempotent() {
    let mut backend = genesis_backend();
    let sk = SigningKey::from_bytes(&[86u8; 32]);
    fund(&mut backend, &sk, 10_000);
    let tx = signed_transfer(&sk, Address([1u8; 32]), 10, 0);
    let first = backend.submit_transaction(tx.clone()).unwrap();
    let second = backend.submit_transaction(tx).unwrap();
    assert_eq!(first, second, "same hash returned");
    assert_eq!(backend.mempool.len(), 1, "no duplicate entry created");
}

#[test]
fn submit_same_nonce_different_transaction_rejected() {
    let mut backend = genesis_backend();
    let sk = SigningKey::from_bytes(&[87u8; 32]);
    fund(&mut backend, &sk, 10_000);
    backend.submit_transaction(signed_transfer(&sk, Address([1u8; 32]), 10, 0)).unwrap();
    assert_eq!(
        backend.submit_transaction(signed_transfer(&sk, Address([2u8; 32]), 10, 0)),
        Err(SubmitError::InvalidNonce { expected: 1 })
    );
    assert_eq!(backend.mempool.len(), 1);
}

#[test]
fn submit_different_senders_same_nonce_independent() {
    let mut backend = genesis_backend();
    let sk_a = SigningKey::from_bytes(&[88u8; 32]);
    let sk_b = SigningKey::from_bytes(&[89u8; 32]);
    fund(&mut backend, &sk_a, 10_000);
    fund(&mut backend, &sk_b, 10_000);
    backend.submit_transaction(signed_transfer(&sk_a, Address([1u8; 32]), 10, 0)).unwrap();
    backend.submit_transaction(signed_transfer(&sk_b, Address([1u8; 32]), 10, 0)).unwrap();
    assert_eq!(backend.mempool.len(), 2);
}

#[test]
fn produce_block_includes_whole_pending_chain() {
    let mut backend = genesis_backend();
    let sk = SigningKey::from_bytes(&[90u8; 32]);
    let addr = fund(&mut backend, &sk, 10_000);
    for nonce in 0..3u64 {
        backend.submit_transaction(signed_transfer(&sk, Address([1u8; 32]), 100, nonce)).unwrap();
    }
    backend.produce_block().unwrap();
    assert_eq!(backend.storage.get_latest_height().unwrap(), 1);
    assert_eq!(backend.storage.get_block_by_height(1).unwrap().unwrap().body.transactions.len(), 3);
    let account = backend.storage.get_account(&addr).unwrap().unwrap();
    assert_eq!((account.nonce, account.balance), (3, 9700));
    assert_eq!(backend.mempool.len(), 0, "mempool drained");
}

#[test]
fn submit_rejects_when_nonce_space_exhausted() {
    let mut backend = genesis_backend();
    let sk = SigningKey::from_bytes(&[91u8; 32]);
    fund_with_nonce(&mut backend, &sk, 10_000, u64::MAX);
    backend.submit_transaction(signed_transfer(&sk, Address([1u8; 32]), 10, u64::MAX)).unwrap();
    assert_eq!(
        backend.submit_transaction(signed_transfer(&sk, Address([2u8; 32]), 10, u64::MAX)),
        Err(SubmitError::NonceExhausted)
    );
    assert_eq!(backend.mempool.len(), 1);
}

#[test]
fn submit_rejects_chain_exceeding_committed_balance() {
    let mut backend = genesis_backend();
    let sk = SigningKey::from_bytes(&[93u8; 32]);
    fund(&mut backend, &sk, 10);
    backend.submit_transaction(signed_transfer(&sk, Address([1u8; 32]), 7, 0)).unwrap();
    assert_eq!(
        backend.submit_transaction(signed_transfer(&sk, Address([1u8; 32]), 7, 1)),
        Err(SubmitError::InsufficientBalance)
    );
    assert_eq!(backend.mempool.len(), 1);
}

#[test]
fn submit_accepts_chain_within_committed_balance() {
    let mut backend = genesis_backend();
    let sk = SigningKey::from_bytes(&[94u8; 32]);
    let addr = fund(&mut backend, &sk, 10);
    backend.submit_transaction(signed_transfer(&sk, Address([1u8; 32]), 4, 0)).unwrap();
    backend.submit_transaction(signed_transfer(&sk, Address([1u8; 32]), 6, 1)).unwrap();
    assert_eq!(backend.mempool.len(), 2);
    backend.produce_block().unwrap();
    let account = backend.storage.get_account(&addr).unwrap().unwrap();
    assert_eq!((account.balance, account.nonce), (0, 2));
}

#[test]
fn submit_two_anchors_from_one_executor_without_a_block_between() {
    let mut backend = genesis_backend();
    let sk = SigningKey::from_bytes(&[95u8; 32]);
    let executor = fund(&mut backend, &sk, 100);
    let task_a = seed_task(&mut backend, &sk, [0xB1u8; 32]);
    let task_b = seed_task(&mut backend, &sk, [0xB2u8; 32]);

    backend.submit_transaction(valid_anchor_tx(&sk, 0, task_a)).unwrap();
    backend.submit_transaction(valid_anchor_tx(&sk, 1, task_b)).unwrap();
    assert_eq!(backend.mempool.len(), 2, "both pending at once");

    backend.produce_block().unwrap();
    assert_eq!(backend.storage.get_latest_height().unwrap(), 1);
    assert!(backend.storage.has_receipt(&task_a).unwrap());
    assert!(backend.storage.has_receipt(&task_b).unwrap());
    let account = backend.storage.get_account(&executor).unwrap().unwrap();
    assert_eq!(account.nonce, 2, "anchoring consumed both nonces");
    assert_eq!(account.balance, 100, "anchoring moves no balance");
    assert_eq!(backend.mempool.len(), 0);
}

#[test]
fn submit_rejects_beyond_max_pending_per_sender() {
    let mut backend = genesis_backend();
    let sk = SigningKey::from_bytes(&[96u8; 32]);
    let other_sk = SigningKey::from_bytes(&[97u8; 32]);
    fund(&mut backend, &sk, 10_000);
    fund(&mut backend, &other_sk, 10_000);

    for nonce in 0..MAX_PENDING_PER_SENDER as u64 {
        backend
            .submit_transaction(signed_transfer(&sk, Address([1u8; 32]), 1, nonce))
            .unwrap_or_else(|e| panic!("nonce {nonce} should be admitted: {e:?}"));
    }
    assert_eq!(backend.mempool.len(), MAX_PENDING_PER_SENDER);

    assert_eq!(
        backend.submit_transaction(signed_transfer(&sk, Address([1u8; 32]), 1, MAX_PENDING_PER_SENDER as u64)),
        Err(SubmitError::TooManyPending)
    );

    backend.submit_transaction(signed_transfer(&other_sk, Address([1u8; 32]), 1, 0)).unwrap();
    assert_eq!(backend.mempool.len(), MAX_PENDING_PER_SENDER + 1);
}

#[test]
fn failed_block_application_keeps_transactions_pending() {
    let mut backend = genesis_backend();
    let sk = SigningKey::from_bytes(&[98u8; 32]);
    let addr = fund(&mut backend, &sk, 10_000);

    let pending_tx = signed_transfer(&sk, Address([1u8; 32]), 10, 0);
    let pending_hash = compute_tx_hash(&pending_tx);
    backend.submit_transaction(pending_tx).unwrap();

    let external = signed_transfer(&sk, Address([2u8; 32]), 10, 0);
    let block = build_valid_block(&backend, vec![external]);
    backend.apply_block(&block).unwrap();
    assert_eq!(backend.storage.get_account(&addr).unwrap().unwrap().nonce, 1);

    let err = backend.produce_block().unwrap_err();
    assert_eq!(err, BackendError::Apply(ApplyBlockError::InvalidNonce(0)));

    let pool = &backend.mempool;
    assert_eq!(pool.len(), 1, "the transaction is still pending");
    assert!(pool.contains_hash(&pending_hash));
    assert_eq!(pool.peek_for_block(10).len(), 1, "order index still holds it");
    let pending = pool.sender_pending(&addr, 1);
    assert_eq!(pending.expected_nonce, Some(1));
    assert_eq!(pending.len, 1, "still counted as a held resource");
    assert_eq!(pending.pending_debit, 0, "a stale entry is not a debit");
}

#[test]
fn pending_chain_reaches_the_block_in_nonce_order() {
    let mut backend = genesis_backend();
    let sk_a = SigningKey::from_bytes(&[99u8; 32]);
    let sk_b = SigningKey::from_bytes(&[101u8; 32]);
    let addr_a = fund(&mut backend, &sk_a, 10_000);
    let addr_b = fund(&mut backend, &sk_b, 10_000);

    for (sk, nonce) in [(&sk_a, 0u64), (&sk_b, 0), (&sk_a, 1), (&sk_b, 1), (&sk_a, 2)] {
        backend.submit_transaction(signed_transfer(sk, Address([1u8; 32]), 10, nonce)).unwrap();
    }

    backend.produce_block().unwrap();
    let block = backend.storage.get_block_by_height(1).unwrap().unwrap();
    assert_eq!(block.body.transactions.len(), 5);
    let senders: Vec<Address> = block.body.transactions.iter().map(|t| t.sender).collect();
    assert_eq!(senders, vec![addr_a, addr_b, addr_a, addr_b, addr_a]);
    let a_nonces: Vec<u64> = block.body.transactions.iter().filter(|t| t.sender == addr_a).map(|t| t.nonce).collect();
    assert_eq!(a_nonces, vec![0, 1, 2]);
    let b_nonces: Vec<u64> = block.body.transactions.iter().filter(|t| t.sender == addr_b).map(|t| t.nonce).collect();
    assert_eq!(b_nonces, vec![0, 1]);
    assert_eq!(backend.storage.get_account(&addr_a).unwrap().unwrap().nonce, 3);
    assert_eq!(backend.storage.get_account(&addr_b).unwrap().unwrap().nonce, 2);
}

#[test]
fn submit_unknown_sender_has_no_balance() {
    let mut backend = genesis_backend();
    let sk = SigningKey::from_bytes(&[102u8; 32]);
    assert_eq!(
        backend.submit_transaction(signed_transfer(&sk, Address([1u8; 32]), 10, 0)),
        Err(SubmitError::InsufficientBalance)
    );
}

#[test]
fn submit_pool_duplicate_hash_is_not_an_error() {
    let mut backend = genesis_backend();
    let sk = SigningKey::from_bytes(&[103u8; 32]);
    fund(&mut backend, &sk, 100);
    let tx = signed_transfer(&sk, Address([1u8; 32]), 10, 0);
    backend.submit_transaction(tx.clone()).unwrap();
    assert_ne!(backend.submit_transaction(tx), Err(SubmitError::Pool(MempoolError::DuplicateHash)));
}

#[test]
fn admission_accepts_receipt_behind_pending_task() {
    let mut backend = genesis_backend();
    let ck = SigningKey::from_bytes(&[0xC0u8; 32]);
    let client = fund(&mut backend, &ck, 1);
    let ek = SigningKey::from_bytes(&[0xE1u8; 32]);
    let executor = fund(&mut backend, &ek, 10);
    let task = task_for(client, executor, [0x41u8; 32], vec![7]);
    let task_id = task.task_id();
    let answer = |ek: &SigningKey| {
        let mut r = signed_receipt_for(ek, task_id, vec![0xAB], 1);
        r.input_commitment = task.input_commitment;
        r.signature = ek.sign(&r.receipt_hash()).to_bytes();
        signed_anchor_tx(ek, 0, r)
    };

    assert_eq!(backend.submit_transaction(answer(&ek)), Err(SubmitError::TaskNotRegistered));

    backend.submit_transaction(signed_task_tx(&ck, 0, task.clone())).unwrap();
    backend.submit_transaction(answer(&ek)).unwrap();
    assert_eq!(backend.mempool.len(), 2);
    backend.produce_block().unwrap();
    assert!(backend.storage.has_task(&task_id).unwrap());
    assert!(backend.storage.has_receipt(&task_id).unwrap());
    assert_eq!(backend.mempool.len(), 0);
}

#[test]
fn admitted_pool_of_every_kind_is_produced_in_one_block() {
    let mut backend = genesis_backend();
    let ck = SigningKey::from_bytes(&[0xC0u8; 32]);
    let client = fund(&mut backend, &ck, 1000);
    let ek = SigningKey::from_bytes(&[0xE1u8; 32]);
    let executor = fund(&mut backend, &ek, 10);
    let task = task_for(client, executor, [0x42u8; 32], vec![8]);
    let task_id = task.task_id();
    let mut r = signed_receipt_for(&ek, task_id, vec![], 1);
    r.input_commitment = task.input_commitment;
    r.signature = ek.sign(&r.receipt_hash()).to_bytes();

    backend.submit_transaction(signed_transfer(&ck, Address([7u8; 32]), 100, 0)).unwrap();
    backend.submit_transaction(signed_task_tx(&ck, 1, task)).unwrap();
    backend.submit_transaction(signed_anchor_tx(&ek, 0, r)).unwrap();
    backend.submit_transaction(signed_transfer(&ck, executor, 900, 2)).unwrap();
    assert_eq!(backend.mempool.len(), 4);

    let (_, block) = backend.produce_block().unwrap();
    assert_eq!(block.body.transactions.len(), 4);
    assert_eq!(backend.mempool.len(), 0);
    let c = backend.storage.get_account(&client).unwrap().unwrap();
    assert_eq!((c.balance, c.nonce), (0, 3));
    let e = backend.storage.get_account(&executor).unwrap().unwrap();
    assert_eq!((e.balance, e.nonce), (910, 1));
    assert_eq!(backend.storage.get_account(&Address([7u8; 32])).unwrap().unwrap().balance, 100);
    assert!(backend.storage.has_receipt(&task_id).unwrap());
}
