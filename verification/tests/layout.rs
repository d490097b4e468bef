use std::collections::HashMap;

use mbongo::codec::encode_account;
use mbongo::layout::{
    be_bytes, last_included_key_bytes, latest_height_key_bytes, op_write, rocks_puts, tx_seq_key_bytes,
    ColumnFamily,
};
use mbongo::model::Account;
use mbongo::primitives as p;
use mbongo::primitives::Address;
use mbongo::schema::known_cf_names;
use mbongo::storage::BatchOp;
use parity_scale_codec::Encode;

fn replay(puts: &[(ColumnFamily, Vec<u8>, Vec<u8>)]) -> HashMap<(ColumnFamily, Vec<u8>), Vec<u8>> {
    let mut kv = HashMap::new();
    for (cf, k, v) in puts {
        kv.insert((*cf, k.clone()), v.clone());
    }
    kv
}

#[test]
fn meta_keys_are_their_names() {
    assert_eq!(latest_height_key_bytes(), b"latest_height".to_vec());
    assert_eq!(tx_seq_key_bytes(), b"tx_seq".to_vec());
    assert_eq!(last_included_key_bytes(), b"last_included_tx_seq".to_vec());
}

#[test]
fn be_bytes_is_big_endian() {
    assert_eq!(be_bytes(0x0102_0304_0506_0708), vec![1, 2, 3, 4, 5, 6, 7, 8]);
    assert_eq!(be_bytes(0), vec![0u8; 8]);
    assert_eq!(be_bytes(u64::MAX), vec![0xffu8; 8]);
    assert_eq!(be_bytes(300), 300u64.to_be_bytes().to_vec());
}

#[test]
fn account_encoding_is_scale() {
    let acc = Account { address: Address([9u8; 32]), balance: 123_456_789_000, nonce: 42 };
    let expected = ([9u8; 32], 123_456_789_000u128, 42u64).encode();
    assert_eq!(encode_account(&acc), expected);
    assert_eq!(encode_account(&acc).len(), 32 + 16 + 8);
}

#[test]
fn family_names_are_known() {
    let known = known_cf_names();
    let all = [
        ColumnFamily::Accounts,
        ColumnFamily::Blocks,
        ColumnFamily::Transactions,
        ColumnFamily::Meta,
        ColumnFamily::HeightIndex,
        ColumnFamily::TxSeqIndex,
        ColumnFamily::Receipts,
        ColumnFamily::Tasks,
    ];
    for cf in all {
        assert!(known.iter().any(|n| n == cf.name()));
    }
    assert_eq!(ColumnFamily::HeightIndex.name(), "height_index");
    assert_eq!(ColumnFamily::TxSeqIndex.name(), "tx_seq_index");
}

#[test]
fn op_write_places_each_kind() {
    let h = p::Hash([3u8; 32]);
    assert_eq!(
        op_write(&BatchOp::PutBlockHeightIndex(258, h)),
        (ColumnFamily::HeightIndex, vec![0, 0, 0, 0, 0, 0, 1, 2], vec![3u8; 32])
    );
    assert_eq!(
        op_write(&BatchOp::PutTxSeqIndex(1, h)),
        (ColumnFamily::TxSeqIndex, vec![0, 0, 0, 0, 0, 0, 0, 1], vec![3u8; 32])
    );
    assert_eq!(
        op_write(&BatchOp::SetTxSeq(7)),
        (ColumnFamily::Meta, b"tx_seq".to_vec(), 7u64.to_be_bytes().to_vec())
    );
    assert_eq!(
        op_write(&BatchOp::SetLastIncludedTxSeq(9)),
        (ColumnFamily::Meta, b"last_included_tx_seq".to_vec(), 9u64.to_be_bytes().to_vec())
    );
    assert_eq!(
        op_write(&BatchOp::PutReceipt([4u8; 32], vec![1, 2, 3])),
        (ColumnFamily::Receipts, vec![4u8; 32], vec![1, 2, 3])
    );
    assert_eq!(op_write(&BatchOp::PutTask([5u8; 32], vec![8])), (ColumnFamily::Tasks, vec![5u8; 32], vec![8]));
    let acc = Account { address: Address([6u8; 32]), balance: 10, nonce: 1 };
    let (cf, key, value) = op_write(&BatchOp::PutAccount(Address([6u8; 32]), acc));
    assert_eq!(cf, ColumnFamily::Accounts);
    assert_eq!(key, vec![6u8; 32]);
    assert_eq!(value, encode_account(&acc));
}

#[test]
fn batch_raises_latest_height_once_at_the_end() {
    let h = p::Hash([1u8; 32]);
    let ops = vec![
        BatchOp::PutBlockHeightIndex(3, h),
        BatchOp::SetTxSeq(2),
        BatchOp::PutBlockHeightIndex(7, h),
        BatchOp::PutBlockHeightIndex(6, h),
    ];
    let puts = rocks_puts(&ops, 5);
    assert_eq!(puts.len(), 5);
    assert_eq!(puts[4], (ColumnFamily::Meta, b"latest_height".to_vec(), 7u64.to_be_bytes().to_vec()));
}

#[test]
fn batch_keeps_latest_height_when_not_above() {
    let h = p::Hash([1u8; 32]);
    let ops = vec![BatchOp::PutBlockHeightIndex(3, h), BatchOp::PutBlockHeightIndex(5, h)];
    assert_eq!(rocks_puts(&ops, 5).len(), 2);
    assert_eq!(rocks_puts(&ops, 9).len(), 2);
    assert_eq!(rocks_puts(&[BatchOp::SetTxSeq(1)], 0).len(), 1);
    assert!(rocks_puts(&[], 0).is_empty());
}

#[test]
fn batch_replayed_reads_back() {
    let h1 = p::Hash([1u8; 32]);
    let h2 = p::Hash([2u8; 32]);
    let ops = vec![
        BatchOp::PutBlockHeightIndex(1, h1),
        BatchOp::PutTxSeqIndex(1, h2),
        BatchOp::SetTxSeq(1),
        BatchOp::SetLastIncludedTxSeq(1),
        BatchOp::PutTxSeqIndex(1, h1),
    ];
    let kv = replay(&rocks_puts(&ops, 0));
    assert_eq!(kv.get(&(ColumnFamily::HeightIndex, 1u64.to_be_bytes().to_vec())), Some(&vec![1u8; 32]));
    assert_eq!(kv.get(&(ColumnFamily::TxSeqIndex, 1u64.to_be_bytes().to_vec())), Some(&vec![1u8; 32]));
    assert_eq!(kv.get(&(ColumnFamily::Meta, b"tx_seq".to_vec())), Some(&1u64.to_be_bytes().to_vec()));
    assert_eq!(kv.get(&(ColumnFamily::Meta, b"latest_height".to_vec())), Some(&1u64.to_be_bytes().to_vec()));
    assert_eq!(kv.len(), 5);
}
