use ed25519_dalek::{Signer, SigningKey};
use mbongo::codec::{
    append_compact, decode_compact, decode_compute_task, encode_block, encode_receipt, encode_task,
    encode_transaction, encode_transactions, receipt_unsigned_bytes, signing_payload,
};
use mbongo::crypto::{
    compute_block_hash, compute_transactions_root, compute_tx_hash, dev_address, signed_anchor, signed_transfer,
    verify_receipt_signature,
};
use mbongo::model::{
    Account, AccountError, Block, BlockBody, BlockHeader, ComputeTask, Receipt, Transaction, TransactionPayload,
    TransactionType,
};
use mbongo::primitives as p;
use mbongo::primitives::Address;
use mbongo::rules::{
    check_receipt_binding, check_task_envelope, check_type_payload, has_canonical_fields, BindingViolation,
    TaskRuleViolation,
};
use mbongo::hexadecimal::parse_hex32;
use mbongo::scan::{collect_receipts, contains, forms};
use parity_scale_codec::{Compact, Encode};

fn sample_receipt() -> Receipt {
    Receipt {
        version: 1,
        task_id: [7u8; 32],
        input_commitment: [1u8; 32],
        output_commitment: [2u8; 32],
        executor: Address([3u8; 32]),
        metadata: vec![9, 8, 7],
        signature: [4u8; 64],
    }
}

fn sample_task() -> ComputeTask {
    ComputeTask {
        version: 1,
        submitter: Address([5u8; 32]),
        executor: Address([6u8; 32]),
        salt: [7u8; 32],
        input_commitment: [8u8; 32],
        execution_spec: vec![1, 2, 3],
    }
}

fn transfer(sender: u8, amount: u128, nonce: u64) -> Transaction {
    Transaction {
        tx_type: TransactionType::Transfer,
        sender: Address([sender; 32]),
        receiver: Address([4u8; 32]),
        amount,
        nonce,
        payload: TransactionPayload::Empty,
        signature: [0u8; 64],
    }
}

// ── The canonical encoding is SCALE ─────────────────────────────────

#[test]
fn compact_prefix_matches_scale() {
    for n in [0usize, 1, 63, 64, 100, 16383, 16384, 1_000_000, 1_073_741_823, 1_073_741_824, 0xffff_ffff] {
        let mut out = Vec::new();
        append_compact(&mut out, n);
        assert_eq!(out, Compact(n as u32).encode(), "length {n}");
        assert_eq!(decode_compact(&out, 0), Some((n, out.len())));
    }
}

#[test]
fn transaction_encoding_matches_scale() {
    let tx = transfer(3, 100, 7);
    let expected = (0u8, [3u8; 32], [4u8; 32], 100u128, 7u64, 0u8, [0u8; 64]).encode();
    assert_eq!(encode_transaction(&tx), expected);
    assert_eq!(signing_payload(&tx), expected[..expected.len() - 64].to_vec());
}

#[test]
fn receipt_and_task_encodings_match_scale() {
    let r = sample_receipt();
    let expected = (1u8, [7u8; 32], [1u8; 32], [2u8; 32], [3u8; 32], vec![9u8, 8, 7], [4u8; 64]).encode();
    assert_eq!(encode_receipt(&r), expected);
    assert_eq!(receipt_unsigned_bytes(&r), expected[..expected.len() - 64].to_vec());

    let t = sample_task();
    let expected = (1u8, [5u8; 32], [6u8; 32], [7u8; 32], [8u8; 32], vec![1u8, 2, 3]).encode();
    assert_eq!(encode_task(&t), expected);
    assert_eq!(encode_task(&t).len(), 129 + 1 + 3);
}

#[test]
fn payload_variants_carry_their_index() {
    let mut tx = transfer(1, 0, 0);
    tx.tx_type = TransactionType::AnchorReceipt;
    tx.payload = TransactionPayload::AnchorReceipt(Box::new(sample_receipt()));
    let bytes = encode_transaction(&tx);
    assert_eq!(bytes[0], 3);
    assert_eq!(bytes[1 + 32 + 32 + 16 + 8], 1);
    tx.tx_type = TransactionType::ComputeTask;
    tx.payload = TransactionPayload::ComputeTask(Box::new(sample_task()));
    let bytes = encode_transaction(&tx);
    assert_eq!(bytes[0], 2);
    assert_eq!(bytes[1 + 32 + 32 + 16 + 8], 2);
}

#[test]
fn block_encoding_is_header_then_transactions() {
    let txs = vec![transfer(1, 5, 0), transfer(2, 6, 1)];
    let block = Block {
        header: BlockHeader {
            parent_hash: p::Hash([1u8; 32]),
            state_root: p::Hash([2u8; 32]),
            transactions_root: p::Hash([3u8; 32]),
            timestamp: 42,
            height: 9,
        },
        body: BlockBody { transactions: txs.clone() },
    };
    let mut expected = ([1u8; 32], [2u8; 32], [3u8; 32], 42u64, 9u64).encode();
    expected.extend(encode_transactions(&txs));
    assert_eq!(encode_block(&block), expected);
    let mut list = Compact(2u32).encode();
    list.extend(encode_transaction(&txs[0]));
    list.extend(encode_transaction(&txs[1]));
    assert_eq!(encode_transactions(&txs), list);
}

#[test]
fn task_roundtrips_through_its_encoding() {
    let t = sample_task();
    let mut bytes = encode_task(&t);
    assert_eq!(decode_compute_task(&bytes), Some(t.clone()));
    bytes.extend([0xEE, 0xEF]);
    assert_eq!(decode_compute_task(&bytes), Some(t), "trailing bytes are ignored");
    assert_eq!(decode_compute_task(&[0xFF, 0x00]), None);
    assert_eq!(decode_compute_task(&[]), None);
}

#[test]
fn truncated_task_does_not_decode() {
    let bytes = encode_task(&sample_task());
    assert_eq!(decode_compute_task(&bytes[..bytes.len() - 1]), None);
}

// ── Hashing and signatures ──────────────────────────────────────────

#[test]
fn hashes_are_blake3_of_the_encoding() {
    let tx = transfer(3, 100, 7);
    assert_eq!(compute_tx_hash(&tx).0, *blake3::hash(&encode_transaction(&tx)).as_bytes());
    let txs = vec![tx.clone()];
    assert_eq!(compute_transactions_root(&txs).0, *blake3::hash(&encode_transactions(&txs)).as_bytes());
    let t = sample_task();
    assert_eq!(t.task_id(), *blake3::hash(&encode_task(&t)).as_bytes());
    let r = sample_receipt();
    assert_eq!(r.receipt_hash(), *blake3::hash(&receipt_unsigned_bytes(&r)).as_bytes());
}

#[test]
fn hashes_change_with_their_input() {
    let a = transfer(3, 100, 7);
    let b = transfer(3, 101, 7);
    assert_ne!(compute_tx_hash(&a), compute_tx_hash(&b));
    assert_ne!(compute_transactions_root(&vec![a.clone()]), compute_transactions_root(&vec![b.clone()]));
    let mut t = sample_task();
    let id = t.task_id();
    t.salt[0] ^= 1;
    assert_ne!(t.task_id(), id);
    let block = |height| Block {
        header: BlockHeader {
            parent_hash: p::Hash::zero(),
            state_root: p::Hash::zero(),
            transactions_root: p::Hash::zero(),
            timestamp: 0,
            height,
        },
        body: BlockBody { transactions: vec![] },
    };
    assert_ne!(compute_block_hash(&block(1)), compute_block_hash(&block(2)));
}

#[test]
fn signed_transfer_passes_the_signature_rule() {
    let seed = [21u8; 32];
    let tx = signed_transfer(&seed, Address([4u8; 32]), 55, 3);
    let sk = SigningKey::from_bytes(&seed);
    assert_eq!(tx.sender, Address(sk.verifying_key().to_bytes()));
    assert_eq!((tx.amount, tx.nonce, tx.receiver), (55, 3, Address([4u8; 32])));
    assert_eq!(tx.payload, TransactionPayload::Empty);
    assert_eq!(tx.signature, sk.sign(&signing_payload(&tx)).to_bytes());
    assert!(tx.verify_signature());

    let mut tampered = tx.clone();
    tampered.amount = 56;
    assert!(!tampered.verify_signature());
}

#[test]
fn signed_anchor_passes_the_signature_rule() {
    let seed = [22u8; 32];
    let tx = signed_anchor(&seed, sample_receipt(), 4);
    assert_eq!(tx.tx_type, TransactionType::AnchorReceipt);
    assert_eq!((tx.amount, tx.receiver, tx.nonce), (0, Address::zero(), 4));
    assert_eq!(tx.payload, TransactionPayload::AnchorReceipt(Box::new(sample_receipt())));
    assert!(tx.verify_signature());
    assert!(has_canonical_fields(&tx));
}

#[test]
fn receipt_signature_is_checked_against_the_executor() {
    let sk = SigningKey::from_bytes(&[23u8; 32]);
    let mut r = sample_receipt();
    r.executor = Address(sk.verifying_key().to_bytes());
    r.signature = sk.sign(&r.receipt_hash()).to_bytes();
    assert!(verify_receipt_signature(&r));
    r.output_commitment[0] ^= 1;
    assert!(!verify_receipt_signature(&r));
    let mut bad_key = sample_receipt();
    bad_key.executor = Address([0xFFu8; 32]);
    assert!(!verify_receipt_signature(&bad_key));
}

#[test]
fn dev_address_is_the_public_key_of_the_dev_seed() {
    let sk = SigningKey::from_bytes(&[0xAAu8; 32]);
    assert_eq!(dev_address(), Address(sk.verifying_key().to_bytes()));
}

// ── Accounts ────────────────────────────────────────────────────────

#[test]
fn transfer_conserves_balance() {
    let mut a = Account::new(Address([1u8; 32]));
    a.balance = 100;
    a.nonce = 4;
    let mut b = Account::new(Address([2u8; 32]));
    b.balance = 5;
    Account::transfer(&mut a, &mut b, 30).unwrap();
    assert_eq!((a.balance, b.balance), (70, 35));
    assert_eq!(a.balance + b.balance, 105);
    assert_eq!((a.nonce, b.nonce), (4, 0));

    assert_eq!(Account::transfer(&mut a, &mut b, 71), Err(AccountError::InsufficientBalance));
    assert_eq!((a.balance, b.balance), (70, 35));

    b.balance = u128::MAX;
    assert_eq!(Account::transfer(&mut a, &mut b, 1), Err(AccountError::BalanceOverflow));
    assert_eq!(a.balance, 70);
}

#[test]
fn nonce_advances_by_one() {
    let mut a = Account::new(Address([1u8; 32]));
    a.validate_and_increment_nonce(0).unwrap();
    assert_eq!(a.nonce, 1);
    assert_eq!(a.validate_and_increment_nonce(0), Err(AccountError::InvalidNonce));
    assert_eq!(a.validate_and_increment_nonce(2), Err(AccountError::InvalidNonce));
    assert_eq!(a.nonce, 1);
    a.nonce = u64::MAX;
    assert_eq!(a.validate_and_increment_nonce(u64::MAX), Err(AccountError::InvalidNonce));
    assert_eq!(a.nonce, u64::MAX);
}

// ── Rule checks ─────────────────────────────────────────────────────

#[test]
fn type_payload_pairing() {
    let mut tx = transfer(1, 0, 0);
    assert!(check_type_payload(&tx).is_ok());
    tx.tx_type = TransactionType::Stake;
    assert!(check_type_payload(&tx).is_ok());
    tx.tx_type = TransactionType::AnchorReceipt;
    assert!(check_type_payload(&tx).is_err());
    tx.payload = TransactionPayload::AnchorReceipt(Box::new(sample_receipt()));
    assert!(check_type_payload(&tx).is_ok());
    tx.tx_type = TransactionType::ComputeTask;
    assert!(check_type_payload(&tx).is_err());
}

#[test]
fn task_envelope_rules_in_order() {
    let task = sample_task();
    let mut tx = transfer(5, 0, 0);
    assert_eq!(check_task_envelope(&tx, &task), Ok(task.task_id()));
    let mut v2 = task.clone();
    v2.version = 2;
    v2.submitter = Address([9u8; 32]);
    assert_eq!(check_task_envelope(&tx, &v2), Err(TaskRuleViolation::Version));
    let mut big = task.clone();
    big.execution_spec = vec![0; 1025];
    big.submitter = Address([9u8; 32]);
    assert_eq!(check_task_envelope(&tx, &big), Err(TaskRuleViolation::SpecTooLarge));
    big.execution_spec = vec![0; 1024];
    assert_eq!(check_task_envelope(&tx, &big), Err(TaskRuleViolation::SubmitterMismatch));
    tx.sender = Address([9u8; 32]);
    assert_eq!(check_task_envelope(&tx, &big), Ok(big.task_id()));
}

#[test]
fn receipt_binding_rules_in_order() {
    let task = sample_task();
    let mut r = sample_receipt();
    assert_eq!(check_receipt_binding(&r, None), Err(BindingViolation::TaskNotRegistered));
    assert_eq!(check_receipt_binding(&r, Some(&task)), Err(BindingViolation::InputCommitmentMismatch));
    r.input_commitment = task.input_commitment;
    assert_eq!(check_receipt_binding(&r, Some(&task)), Err(BindingViolation::ExecutorNotAuthorised));
    r.executor = task.executor;
    assert_eq!(check_receipt_binding(&r, Some(&task)), Ok(()));
}

// ── Scanning ────────────────────────────────────────────────────────

#[test]
fn contains_finds_a_needle_anywhere() {
    assert!(contains(b"hello world", b"lo w"));
    assert!(contains(b"hello", b"hello"));
    assert!(contains(b"hello", b"o"));
    assert!(!contains(b"hello", b"hellos"));
    assert!(!contains(b"hello", b"ol"));
    assert!(!contains(b"hello", b""), "an empty needle is never found");
    assert!(!contains(b"", b"a"));
}

#[test]
fn forms_covers_raw_hex_and_json() {
    let f = forms(&[1, 2, 0xAB]);
    assert_eq!(f.len(), 3);
    assert_eq!(f[0], vec![1, 2, 0xAB]);
    assert_eq!(f[1], b"0102ab".to_vec());
    assert_eq!(f[2], b"1,2,171".to_vec());
    let empty = forms(&[]);
    assert_eq!(empty, vec![Vec::<u8>::new(), Vec::new(), Vec::new()]);
}

#[test]
fn collect_receipts_keeps_body_order_and_height() {
    let mut r1 = sample_receipt();
    r1.metadata = vec![1];
    let mut r2 = sample_receipt();
    r2.metadata = vec![2];
    let mut other = sample_receipt();
    other.task_id = [0x55u8; 32];
    let anchor = |r: Receipt| Transaction {
        tx_type: TransactionType::AnchorReceipt,
        sender: Address([3u8; 32]),
        receiver: Address::zero(),
        amount: 0,
        nonce: 0,
        payload: TransactionPayload::AnchorReceipt(Box::new(r)),
        signature: [0u8; 64],
    };
    let block = Block {
        header: BlockHeader {
            parent_hash: p::Hash::zero(),
            state_root: p::Hash::zero(),
            transactions_root: p::Hash::zero(),
            timestamp: 0,
            height: 4,
        },
        body: BlockBody {
            transactions: vec![anchor(r1.clone()), transfer(1, 1, 0), anchor(other), anchor(r2.clone())],
        },
    };
    let mut out = vec![(1u64, sample_receipt())];
    collect_receipts(&block, 4, &[7u8; 32], &mut out);
    assert_eq!(out, vec![(1, sample_receipt()), (4, r1), (4, r2)]);
}

// ── Hexadecimal text ────────────────────────────────────────────────

#[test]
fn parse_hex32_reads_prefixed_and_bare_text() {
    let text = hex::encode([0xABu8; 32]);
    assert_eq!(parse_hex32(text.as_bytes()), Some([0xABu8; 32]));
    let prefixed = format!("0x{text}");
    assert_eq!(parse_hex32(prefixed.as_bytes()), Some([0xABu8; 32]));
    assert_eq!(parse_hex32(text.to_uppercase().as_bytes()), Some([0xABu8; 32]));
    let twice = format!("0x0x{text}");
    assert_eq!(parse_hex32(twice.as_bytes()), Some([0xABu8; 32]), "every leading 0x is dropped");
    assert_eq!(parse_hex32(b"not-a-hash"), None);
    assert_eq!(parse_hex32(b"bad"), None);
    assert_eq!(parse_hex32(text[..62].as_bytes()), None, "31 bytes");
    let odd = format!("{text}0");
    assert_eq!(parse_hex32(odd.as_bytes()), None);
    let mut wrong = text.clone().into_bytes();
    wrong[5] = b'g';
    assert_eq!(parse_hex32(&wrong), None);
}

#[test]
fn hex_forms_roundtrip_through_parse() {
    let bytes: Vec<u8> = (0u8..32).collect();
    let f = forms(&bytes);
    let mut arr = [0u8; 32];
    arr.copy_from_slice(&bytes);
    assert_eq!(parse_hex32(&f[1]), Some(arr));
}

#[test]
fn forms_writes_bytes_in_decimal_with_commas() {
    let f = forms(&[0, 9, 10, 99, 100, 255]);
    assert_eq!(f[2], b"0,9,10,99,100,255".to_vec());
    assert_eq!(f[1], b"00090a6364ff".to_vec());
    assert_eq!(forms(&[42])[2], b"42".to_vec());
}
