use mbongo::model::{Account, Block, BlockBody, BlockHeader, Transaction, TransactionPayload, TransactionType};
use mbongo::primitives as p;
use mbongo::primitives::Address;
use mbongo::schema::{
    read_schema_version, write_schema_version, MigrationPlan, OpenStep, RocksDbStorage, SCHEMA_VERSION_CURRENT,
};
use mbongo::storage::{BatchOp, InMemoryStorage, SchemaProblem, Storage, StorageError};

fn sample_account() -> (Address, Account) {
    let addr = Address([1u8; 32]);
    let mut account = Account::new(addr);
    account.balance = 42_000;
    account.nonce = 3;
    (addr, account)
}

fn sample_transaction() -> (p::Hash, Transaction) {
    let hash = p::Hash([2u8; 32]);
    let tx = Transaction {
        tx_type: TransactionType::Transfer,
        sender: Address([3u8; 32]),
        receiver: Address([4u8; 32]),
        amount: 100,
        nonce: 0,
        payload: TransactionPayload::Empty,
        signature: [0u8; 64],
    };
    (hash, tx)
}

fn sample_block() -> (p::Hash, Block) {
    let hash = p::Hash([5u8; 32]);
    let block = Block {
        header: BlockHeader {
            parent_hash: p::Hash::zero(),
            state_root: p::Hash::zero(),
            transactions_root: p::Hash::zero(),
            timestamp: 1_700_000_000,
            height: 1,
        },
        body: BlockBody {
            transactions: vec![Transaction {
                tx_type: TransactionType::Transfer,
                sender: Address::zero(),
                receiver: Address([6u8; 32]),
                amount: 50,
                nonce: 0,
                payload: TransactionPayload::Empty,
                signature: [0u8; 64],
            }],
        },
    };
    (hash, block)
}

fn height_index_suite<S: Storage>(store: &mut S) {
    assert_eq!(store.get_latest_height().unwrap(), 0);
    assert!(store.get_block_by_height(0).unwrap().is_none());

    let (hash, block) = sample_block();
    store.put_block(&hash, &block).unwrap();
    store.put_block_height_index(0, hash).unwrap();

    let loaded = store.get_block_by_height(0).unwrap().expect("block at height 0");
    assert_eq!(loaded.header.height, block.header.height);

    let hash2 = p::Hash([7u8; 32]);
    let block2 = Block {
        header: BlockHeader {
            parent_hash: hash,
            state_root: p::Hash::zero(),
            transactions_root: p::Hash::zero(),
            timestamp: 1_700_000_001,
            height: 2,
        },
        body: BlockBody { transactions: vec![] },
    };
    store.put_block(&hash2, &block2).unwrap();
    store.put_block_height_index(2, hash2).unwrap();
    assert_eq!(store.get_latest_height().unwrap(), 2);

    assert!(store.get_block_by_height(99).unwrap().is_none());
}

fn tx_seq_suite<S: Storage>(store: &mut S) {
    assert_eq!(store.get_last_included_tx_seq().unwrap(), 0);
    assert!(store.get_tx_hash_by_seq(1).unwrap().is_none());

    assert_eq!(store.next_tx_seq().unwrap(), 1);
    assert_eq!(store.next_tx_seq().unwrap(), 2);
    assert_eq!(store.next_tx_seq().unwrap(), 3);

    let h1 = p::Hash([10u8; 32]);
    let h2 = p::Hash([11u8; 32]);
    store.put_tx_seq_index(1, &h1).unwrap();
    store.put_tx_seq_index(2, &h2).unwrap();

    assert_eq!(store.get_tx_hash_by_seq(1).unwrap(), Some(h1));
    assert_eq!(store.get_tx_hash_by_seq(2).unwrap(), Some(h2));
    assert!(store.get_tx_hash_by_seq(3).unwrap().is_none());

    store.set_last_included_tx_seq(2).unwrap();
    assert_eq!(store.get_last_included_tx_seq().unwrap(), 2);
}

fn roundtrip_suite<S: Storage>(store: &mut S) {
    let (addr, account) = sample_account();
    assert!(store.get_account(&addr).unwrap().is_none());
    store.put_account(&addr, &account).unwrap();
    let loaded = store.get_account(&addr).unwrap().expect("account missing");
    assert_eq!(loaded, account);

    let (hash, block) = sample_block();
    assert!(store.get_block(&hash).unwrap().is_none());
    store.put_block(&hash, &block).unwrap();
    let loaded = store.get_block(&hash).unwrap().expect("block missing");
    assert_eq!(loaded, block);

    let (hash, tx) = sample_transaction();
    assert!(store.get_transaction(&hash).unwrap().is_none());
    store.put_transaction(&hash, &tx).unwrap();
    let loaded = store.get_transaction(&hash).unwrap().expect("transaction missing");
    assert_eq!(loaded, tx);
}

fn write_batch_suite<S: Storage>(store: &mut S) {
    let (addr1, account1) = sample_account();
    let (tx_hash, tx) = sample_transaction();
    let (block_hash, block) = sample_block();

    assert!(store.get_account(&addr1).unwrap().is_none());
    assert!(store.get_transaction(&tx_hash).unwrap().is_none());
    assert!(store.get_block(&block_hash).unwrap().is_none());
    assert!(store.get_block_by_height(1).unwrap().is_none());
    assert!(store.get_tx_hash_by_seq(1).unwrap().is_none());
    assert_eq!(store.get_last_included_tx_seq().unwrap(), 0);

    store
        .write_batch(vec![
            BatchOp::PutAccount(addr1, account1),
            BatchOp::PutTransaction(tx_hash, tx.clone()),
            BatchOp::PutBlock(block_hash, block.clone()),
            BatchOp::PutBlockHeightIndex(1, block_hash),
            BatchOp::PutTxSeqIndex(1, tx_hash),
            BatchOp::SetTxSeq(1),
            BatchOp::SetLastIncludedTxSeq(1),
        ])
        .unwrap();

    let loaded_acc = store.get_account(&addr1).unwrap().expect("account");
    assert_eq!(loaded_acc, account1);

    let loaded_tx = store.get_transaction(&tx_hash).unwrap().expect("tx");
    assert_eq!(loaded_tx, tx);

    let loaded_block = store.get_block(&block_hash).unwrap().expect("block");
    assert_eq!(loaded_block, block);

    let loaded_by_height = store.get_block_by_height(1).unwrap().expect("block at height 1");
    assert_eq!(loaded_by_height, block);

    assert_eq!(store.get_latest_height().unwrap(), 1);

    let loaded_seq = store.get_tx_hash_by_seq(1).unwrap().expect("tx seq");
    assert_eq!(loaded_seq, tx_hash);

    assert_eq!(store.get_last_included_tx_seq().unwrap(), 1);
}

fn receipt_suite<S: Storage>(store: &mut S) {
    let task_a = [0xA1u8; 32];
    let task_b = [0xB2u8; 32];
    let bytes_a = vec![1u8, 2, 3, 4, 5];

    assert!(!store.has_receipt(&task_a).unwrap());
    assert!(store.get_receipt(&task_a).unwrap().is_none());

    store.write_batch(vec![BatchOp::PutReceipt(task_a, bytes_a.clone())]).unwrap();
    assert!(store.has_receipt(&task_a).unwrap());
    assert_eq!(store.get_receipt(&task_a).unwrap(), Some(bytes_a));

    assert!(!store.has_receipt(&task_b).unwrap());

    let (addr, account) = sample_account();
    let bytes_b = vec![9u8; 64];
    store
        .write_batch(vec![BatchOp::PutAccount(addr, account), BatchOp::PutReceipt(task_b, bytes_b.clone())])
        .unwrap();
    assert!(store.has_receipt(&task_b).unwrap());
    assert_eq!(store.get_receipt(&task_b).unwrap(), Some(bytes_b));
    assert_eq!(store.get_account(&addr).unwrap(), Some(account));
}

fn task_suite<S: Storage>(store: &mut S) {
    let task_a = [0xC1u8; 32];
    let task_b = [0xD2u8; 32];
    let bytes_a = vec![7u8, 8, 9];

    assert!(!store.has_task(&task_a).unwrap());
    assert!(store.get_task(&task_a).unwrap().is_none());

    store.write_batch(vec![BatchOp::PutTask(task_a, bytes_a.clone())]).unwrap();
    assert!(store.has_task(&task_a).unwrap());
    assert_eq!(store.get_task(&task_a).unwrap(), Some(bytes_a));

    assert!(!store.has_task(&task_b).unwrap());

    assert!(!store.has_receipt(&task_a).unwrap());
    store.write_batch(vec![BatchOp::PutReceipt(task_b, vec![1u8])]).unwrap();
    assert!(store.has_receipt(&task_b).unwrap());
    assert!(!store.has_task(&task_b).unwrap());

    let (addr, account) = sample_account();
    let bytes_b = vec![3u8; 1155];
    store
        .write_batch(vec![BatchOp::PutAccount(addr, account), BatchOp::PutTask(task_b, bytes_b.clone())])
        .unwrap();
    assert!(store.has_task(&task_b).unwrap());
    assert_eq!(store.get_task(&task_b).unwrap(), Some(bytes_b));
    assert_eq!(store.get_account(&addr).unwrap(), Some(account));
}

#[test]
fn memory_account_roundtrip() {
    let mut store = InMemoryStorage::new();
    let (addr, account) = sample_account();
    store.put_account(&addr, &account).unwrap();
    let loaded = store.get_account(&addr).unwrap().expect("account missing");
    assert_eq!(loaded, account);
}

#[test]
fn memory_block_roundtrip() {
    let mut store = InMemoryStorage::new();
    let (hash, block) = sample_block();
    store.put_block(&hash, &block).unwrap();
    let loaded = store.get_block(&hash).unwrap().expect("block missing");
    assert_eq!(loaded, block);
}

#[test]
fn memory_transaction_roundtrip() {
    let mut store = InMemoryStorage::new();
    let (hash, tx) = sample_transaction();
    store.put_transaction(&hash, &tx).unwrap();
    let loaded = store.get_transaction(&hash).unwrap().expect("transaction missing");
    assert_eq!(loaded, tx);
}

#[test]
fn memory_full_roundtrip() {
    let mut store = InMemoryStorage::new();
    roundtrip_suite(&mut store);
}

#[test]
fn memory_height_index() {
    let mut store = InMemoryStorage::new();
    height_index_suite(&mut store);
}

#[test]
fn memory_tx_seq() {
    let mut store = InMemoryStorage::new();
    tx_seq_suite(&mut store);
}

#[test]
fn memory_write_batch() {
    let mut store = InMemoryStorage::new();
    write_batch_suite(&mut store);
}

#[test]
fn memory_receipts() {
    let mut store = InMemoryStorage::new();
    receipt_suite(&mut store);
}

#[test]
fn memory_tasks() {
    let mut store = InMemoryStorage::new();
    task_suite(&mut store);
}

#[test]
fn memory_default_is_empty() {
    let store = InMemoryStorage::default();
    assert_eq!(store.get_latest_height().unwrap(), 0);
    assert_eq!(store.get_last_included_tx_seq().unwrap(), 0);
    assert!(store.get_account(&Address([1u8; 32])).unwrap().is_none());
}

#[test]
fn memory_lower_height_index_keeps_latest() {
    let mut store = InMemoryStorage::new();
    let (hash, block) = sample_block();
    store.put_block(&hash, &block).unwrap();
    store.put_block_height_index(5, hash).unwrap();
    store.put_block_height_index(3, hash).unwrap();
    assert_eq!(store.get_latest_height().unwrap(), 5);
    assert!(store.get_block_by_height(3).unwrap().is_some());
}

// ── Schema version and migration decisions ──────────────────────────

const V1_CFS: [&str; 6] = ["accounts", "blocks", "transactions", "meta", "height_index", "tx_seq_index"];

fn v1_layout() -> Vec<String> {
    let mut names: Vec<String> = vec!["default".to_string()];
    names.extend(V1_CFS.iter().map(|s| s.to_string()));
    names
}

fn open_existing(present: Vec<String>, stored: Option<Vec<u8>>) -> Result<(RocksDbStorage, MigrationPlan), StorageError> {
    assert_eq!(RocksDbStorage::open(Some(&present)), Ok(OpenStep::OpenExisting));
    RocksDbStorage::finish_open(present, stored.as_ref())
}

#[test]
fn rocksdb_fresh_database_is_schema_v3() {
    assert_eq!(RocksDbStorage::open(None), Ok(OpenStep::CreateFresh));
    let (store, created) = RocksDbStorage::create_fresh();
    assert_eq!(SCHEMA_VERSION_CURRENT, 3);
    assert_eq!(store.schema_version(), SCHEMA_VERSION_CURRENT);
    assert!(created.contains(&"receipts".to_string()));
    assert!(created.contains(&"tasks".to_string()));
    assert!(!created.contains(&"default".to_string()));
}

#[test]
fn rocksdb_v1_database_migrates_to_v3() {
    let (store, plan) = open_existing(v1_layout(), None).unwrap();
    assert_eq!(store.schema_version(), SCHEMA_VERSION_CURRENT);
    assert_eq!(plan.create, vec!["receipts".to_string(), "tasks".to_string()]);
    assert!(plan.stamp);
    assert!(store.column_families().contains(&"receipts".to_string()));
    assert!(store.column_families().contains(&"tasks".to_string()));
    assert!(store.column_families().contains(&"accounts".to_string()));
}

#[test]
fn rocksdb_v2_database_migrates_to_v3() {
    let mut present = v1_layout();
    present.push("receipts".to_string());
    let (store, plan) = open_existing(present, Some(2u32.to_be_bytes().to_vec())).unwrap();
    assert_eq!(store.schema_version(), SCHEMA_VERSION_CURRENT);
    assert_eq!(plan.create, vec!["tasks".to_string()]);
    assert!(plan.stamp);
}

#[test]
fn rocksdb_interrupted_migration_recovers() {
    let mut present = v1_layout();
    present.push("receipts".to_string());
    present.push("tasks".to_string());
    let (store, plan) = open_existing(present, None).unwrap();
    assert_eq!(store.schema_version(), SCHEMA_VERSION_CURRENT);
    assert!(plan.create.is_empty(), "creation is skipped");
    assert!(plan.stamp, "the stamp is applied");
}

#[test]
fn rocksdb_interrupted_v3_migration_recovers() {
    let mut present = v1_layout();
    present.push("receipts".to_string());
    present.push("tasks".to_string());
    let (store, plan) = open_existing(present, Some(2u32.to_be_bytes().to_vec())).unwrap();
    assert_eq!(store.schema_version(), SCHEMA_VERSION_CURRENT);
    assert!(plan.create.is_empty());
    assert!(plan.stamp);
}

#[test]
fn rocksdb_v3_database_reopens() {
    let (_, created) = RocksDbStorage::create_fresh();
    let mut present: Vec<String> = vec!["default".to_string()];
    present.extend(created);
    let (store, plan) = open_existing(present, Some(write_schema_version(SCHEMA_VERSION_CURRENT))).unwrap();
    assert_eq!(store.schema_version(), SCHEMA_VERSION_CURRENT);
    assert!(plan.create.is_empty());
    assert!(!plan.stamp, "a current database is not stamped again");
}

#[test]
fn rocksdb_newer_schema_rejected() {
    let (_, created) = RocksDbStorage::create_fresh();
    let mut present: Vec<String> = vec!["default".to_string()];
    present.extend(created);
    match open_existing(present, Some(4u32.to_be_bytes().to_vec())) {
        Err(StorageError::Schema(SchemaProblem::NewerVersion { found, supported })) => {
            assert_eq!(found, 4, "error should name the found version");
            assert_eq!(supported, 3, "error should name the supported version");
        }
        Err(other) => panic!("expected Schema error, got: {other:?}"),
        Ok(_) => panic!("open must reject a newer schema version"),
    }
}

#[test]
fn rocksdb_unknown_column_family_rejected() {
    let mut present = v1_layout();
    present.push("future_cf".to_string());
    match RocksDbStorage::open(Some(&present)) {
        Err(StorageError::Schema(SchemaProblem::UnknownColumnFamily(name))) => {
            assert!(name.contains("future_cf"), "error should name the unknown CF: {name}");
        }
        Err(other) => panic!("expected Schema error, got: {other:?}"),
        Ok(_) => panic!("open must reject an unknown column family"),
    }
}

#[test]
fn rocksdb_missing_required_column_family_rejected() {
    let present: Vec<String> = vec!["default".to_string(), "accounts".to_string(), "meta".to_string()];
    assert_eq!(
        RocksDbStorage::open(Some(&present)),
        Err(StorageError::Schema(SchemaProblem::MissingColumnFamily("blocks".to_string())))
    );
}

#[test]
fn schema_version_is_four_big_endian_bytes() {
    assert_eq!(write_schema_version(3), vec![0, 0, 0, 3]);
    assert_eq!(write_schema_version(0x0102_0304), vec![1, 2, 3, 4]);
    assert_eq!(read_schema_version(None), Ok(1));
    assert_eq!(read_schema_version(Some(&vec![0, 0, 1, 0])), Ok(256));
    assert_eq!(
        read_schema_version(Some(&vec![0, 3])),
        Err(StorageError::Schema(SchemaProblem::MalformedVersion))
    );
}
