//! Hashing and signatures: the digests that identify transactions, blocks,
//! tasks and receipts, and the signature rules that authorise them.

use ed25519_dalek::{Signer, Verifier};
use vstd::prelude::*;

use crate::codec::{
    block_encodable, enc_block, enc_receipt_unsigned, enc_task, enc_tx, enc_tx_unsigned, enc_txs,
    encode_block, encode_task, encode_transaction, encode_transactions, receipt_encodable,
    receipt_unsigned_bytes, signing_payload, task_encodable, tx_encodable, txs_encodable,
};
use crate::model::{
    Block, ComputeTask, Receipt, SpecBlock, SpecComputeTask, SpecPayload, SpecReceipt, SpecTransaction,
    Transaction, TransactionPayload, TransactionType, txs_view,
};
use crate::primitives as p;
use crate::primitives::Address;

verus! {

// ── Trusted items ─────────────────────────────────────────────────────

/// The BLAKE3 digest of a byte string (what `blake3::hash` returns).
pub uninterp spec fn blake3_of(data: Seq<u8>) -> [u8; 32];

/// Calls `blake3::hash`. Claimed: the 32-byte result is `blake3_of` of the
/// input bytes, a function of those bytes alone; nothing else is said of it.
#[verifier::external_body]
fn blake3_digest(data: &[u8]) -> (r: [u8; 32])
    ensures
        r == blake3_of(data@),
{
    *blake3::hash(data).as_bytes()
}

/// Whether Ed25519 verification accepts `signature` on `message` under the
/// public key `public_key` (a key that does not decompress accepts nothing).
pub uninterp spec fn ed25519_accepts(public_key: [u8; 32], message: Seq<u8>, signature: [u8; 64]) -> bool;

/// Calls `ed25519_dalek::VerifyingKey::from_bytes` and, when the key
/// decompresses, `Verifier::verify` on the message and signature bytes.
/// Claimed: the answer is `ed25519_accepts` of the three inputs, a function
/// of them alone.
#[verifier::external_body]
fn ed25519_verify(public_key: &[u8; 32], message: &[u8], signature: &[u8; 64]) -> (r: bool)
    ensures
        r == ed25519_accepts(*public_key, message@, *signature),
{
    match ed25519_dalek::VerifyingKey::from_bytes(public_key) {
        Ok(key) => key.verify(message, &ed25519_dalek::Signature::from_bytes(signature)).is_ok(),
        Err(_) => false,
    }
}

/// The Ed25519 public key of the signing key with this 32-byte seed.
pub uninterp spec fn ed25519_public_key_of(seed: [u8; 32]) -> [u8; 32];

/// Calls `ed25519_dalek::SigningKey::from_bytes(seed).verifying_key().to_bytes()`.
/// Claimed: the result is `ed25519_public_key_of` of the seed.
#[verifier::external_body]
fn ed25519_public_key(seed: &[u8; 32]) -> (r: [u8; 32])
    ensures
        r == ed25519_public_key_of(*seed),
{
    ed25519_dalek::SigningKey::from_bytes(seed).verifying_key().to_bytes()
}

/// The Ed25519 signature of `message` by the key with this seed (Ed25519
/// signing is deterministic).
pub uninterp spec fn ed25519_signature_of(seed: [u8; 32], message: Seq<u8>) -> [u8; 64];

/// Calls `ed25519_dalek::SigningKey::from_bytes(seed)` and `Signer::sign` on
/// the message. Claimed: the result is `ed25519_signature_of` of the seed
/// and message, and verification under the public key of the same seed
/// accepts it.
#[verifier::external_body]
fn ed25519_sign(seed: &[u8; 32], message: &[u8]) -> (r: [u8; 64])
    ensures
        r == ed25519_signature_of(*seed, message@),
        ed25519_accepts(ed25519_public_key_of(*seed), message@, r),
{
    ed25519_dalek::SigningKey::from_bytes(seed).sign(message).to_bytes()
}

// ── Identities ────────────────────────────────────────────────────────

/// A transaction's hash: the digest of its canonical encoding.
pub open spec fn spec_tx_hash(t: SpecTransaction) -> p::Hash {
    p::Hash(blake3_of(enc_tx(t)))
}

/// A block's hash: the digest of its canonical encoding.
pub open spec fn spec_block_hash(b: SpecBlock) -> p::Hash {
    p::Hash(blake3_of(enc_block(b)))
}

/// The commitment to a block body stored in its header.
pub open spec fn spec_transactions_root(txs: Seq<SpecTransaction>) -> p::Hash {
    p::Hash(blake3_of(enc_txs(txs)))
}

/// A task's identity: the digest of its encoded envelope.
pub open spec fn spec_task_id(t: SpecComputeTask) -> [u8; 32] {
    blake3_of(enc_task(t))
}

/// The digest a receipt's executor signs.
pub open spec fn spec_receipt_hash(r: SpecReceipt) -> [u8; 32] {
    blake3_of(enc_receipt_unsigned(r))
}

/// A transaction is authorised when its sender's key signed its payload.
pub open spec fn spec_tx_signature_valid(t: SpecTransaction) -> bool {
    ed25519_accepts(t.sender.0, enc_tx_unsigned(t), t.signature)
}

/// A receipt is authentic when its executor's key signed its hash.
pub open spec fn spec_receipt_signature_valid(r: SpecReceipt) -> bool {
    ed25519_accepts(r.executor.0, spec_receipt_hash(r)@, r.signature)
}

/// Hash of a transaction.
pub fn compute_tx_hash(tx: &Transaction) -> (r: p::Hash)
    requires
        tx_encodable(tx@),
    ensures
        r == spec_tx_hash(tx@),
{
    let bytes = encode_transaction(tx);
    p::Hash(blake3_digest(bytes.as_slice()))
}

/// Hash of a block.
pub fn compute_block_hash(block: &Block) -> (r: p::Hash)
    requires
        block_encodable(block@),
    ensures
        r == spec_block_hash(block@),
{
    let bytes = encode_block(block);
    p::Hash(blake3_digest(bytes.as_slice()))
}

/// Commitment to an ordered list of transactions.
pub fn compute_transactions_root(txs: &Vec<Transaction>) -> (r: p::Hash)
    requires
        txs_encodable(txs_view(txs@)),
    ensures
        r == spec_transactions_root(txs_view(txs@)),
{
    let bytes = encode_transactions(txs);
    p::Hash(blake3_digest(bytes.as_slice()))
}

impl ComputeTask {
    /// The task's identity.
    pub fn task_id(&self) -> (r: [u8; 32])
        requires
            task_encodable(self@),
        ensures
            r == spec_task_id(self@),
    {
        let bytes = encode_task(self);
        blake3_digest(bytes.as_slice())
    }
}

impl Receipt {
    /// The digest the executor signs.
    pub fn receipt_hash(&self) -> (r: [u8; 32])
        requires
            receipt_encodable(self@),
        ensures
            r == spec_receipt_hash(self@),
    {
        let bytes = receipt_unsigned_bytes(self);
        blake3_digest(bytes.as_slice())
    }
}

impl Transaction {
    /// Whether the sender's key signed this transaction.
    pub fn verify_signature(&self) -> (r: bool)
        requires
            tx_encodable(self@),
        ensures
            r == spec_tx_signature_valid(self@),
    {
        let payload = signing_payload(self);
        ed25519_verify(&self.sender.0, payload.as_slice(), &self.signature)
    }
}

/// Whether the receipt's executor signed the receipt hash.
pub fn verify_receipt_signature(r: &Receipt) -> (ok: bool)
    requires
        receipt_encodable(r@),
    ensures
        ok == spec_receipt_signature_valid(r@),
{
    let h = r.receipt_hash();
    ed25519_verify(&r.executor.0, h.as_slice(), &r.signature)
}

/// The seed of the development key funded at genesis (32 bytes of 0xAA).
pub open spec fn dev_seed() -> [u8; 32] {
    choose|a: [u8; 32]| a@ == Seq::new(32, |i: int| 0xAAu8)
}

/// The address funded at genesis for development.
pub open spec fn spec_dev_address() -> Address {
    Address(ed25519_public_key_of(dev_seed()))
}

/// Derives the development address.
pub fn dev_address() -> (r: Address)
    ensures
        r == spec_dev_address(),
{
    let seed: [u8; 32] = [0xAAu8; 32];
    proof {
        assert(seed@ =~= Seq::new(32, |i: int| 0xAAu8));
        let s = dev_seed();
        assert(s@ == Seq::new(32, |i: int| 0xAAu8));
        assert(seed =~= s);
    }
    Address(ed25519_public_key(&seed))
}

/// The address of the key with this seed.
pub open spec fn address_of_seed(seed: [u8; 32]) -> Address {
    Address(ed25519_public_key_of(seed))
}

/// `t` carries the signature the key with this seed makes over its payload.
pub open spec fn signed_by_seed(t: SpecTransaction, seed: [u8; 32]) -> bool {
    t.sender == address_of_seed(seed) && t.signature == ed25519_signature_of(seed, enc_tx_unsigned(t))
}

/// Signs `tx` with the key of this seed, which must be the sender's.
fn sign_transaction(seed: &[u8; 32], tx: &mut Transaction)
    requires
        tx_encodable(old(tx)@),
        old(tx)@.sender == address_of_seed(*seed),
    ensures
        final(tx)@ == (SpecTransaction { signature: final(tx)@.signature, ..old(tx)@ }),
        signed_by_seed(final(tx)@, *seed),
        spec_tx_signature_valid(final(tx)@),
{
    let payload = signing_payload(tx);
    tx.signature = ed25519_sign(seed, payload.as_slice());
}

/// A transfer of `amount` to `to` at `nonce`, signed by the key of this
/// seed, which it names as sender. It passes the signature rule.
pub fn signed_transfer(seed: &[u8; 32], to: Address, amount: u128, nonce: u64) -> (r: Transaction)
    ensures
        r@.tx_type == TransactionType::Transfer,
        r@.receiver == to,
        r@.amount == amount,
        r@.nonce == nonce,
        r@.payload == SpecPayload::Empty,
        signed_by_seed(r@, *seed),
        spec_tx_signature_valid(r@),
{
    let mut tx = Transaction {
        tx_type: TransactionType::Transfer,
        sender: Address(ed25519_public_key(seed)),
        receiver: to,
        amount,
        nonce,
        payload: TransactionPayload::Empty,
        signature: [0u8; 64],
    };
    sign_transaction(seed, &mut tx);
    tx
}

/// An anchoring of `receipt` at `nonce` (amount 0, zero receiver), signed
/// by the key of this seed, which it names as sender. It passes the
/// signature rule.
pub fn signed_anchor(seed: &[u8; 32], receipt: Receipt, nonce: u64) -> (r: Transaction)
    requires
        receipt_encodable(receipt@),
    ensures
        r@.tx_type == TransactionType::AnchorReceipt,
        r@.receiver == Address::spec_zero(),
        r@.amount == 0,
        r@.nonce == nonce,
        r@.payload == SpecPayload::AnchorReceipt(receipt@),
        signed_by_seed(r@, *seed),
        spec_tx_signature_valid(r@),
{
    let mut tx = Transaction {
        tx_type: TransactionType::AnchorReceipt,
        sender: Address(ed25519_public_key(seed)),
        receiver: Address::zero(),
        amount: 0,
        nonce,
        payload: TransactionPayload::AnchorReceipt(Box::new(receipt)),
        signature: [0u8; 64],
    };
    sign_transaction(seed, &mut tx);
    tx
}

} // verus!
