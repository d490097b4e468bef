//! Fixed-size byte identifiers and exact byte comparison.

use vstd::prelude::*;

verus! {

/// A 32-byte digest: the identity of a block or a transaction.
#[derive(Clone, Copy, Debug, PartialEq, Eq)]
pub struct Hash(pub [u8; 32]);

/// A 32-byte account address (an Ed25519 public key).
#[derive(Clone, Copy, Debug, PartialEq, Eq)]
pub struct Address(pub [u8; 32]);

/// Thirty-two zero bytes.
pub open spec fn zero_seq32() -> Seq<u8> {
    Seq::new(32, |i: int| 0u8)
}

/// The all-zero 32-byte value.
pub open spec fn zero32() -> [u8; 32] {
    choose|a: [u8; 32]| a@ == zero_seq32()
}

/// Returns 32 zero bytes.
pub fn zero_bytes32() -> (r: [u8; 32])
    ensures
        r == zero32(),
        r@ == zero_seq32(),
{
    let r: [u8; 32] = [0u8; 32];
    proof {
        assert(r@ =~= zero_seq32());
        let z = zero32();
        assert(z@ == zero_seq32());
        assert(r =~= z);
    }
    r
}

impl Hash {
    /// The all-zero hash.
    pub open spec fn spec_zero() -> Hash {
        Hash(zero32())
    }

    /// Returns the all-zero hash.
    pub fn zero() -> (r: Hash)
        ensures
            r == Hash::spec_zero(),
    {
        Hash(zero_bytes32())
    }
}

impl Address {
    /// The all-zero address.
    pub open spec fn spec_zero() -> Address {
        Address(zero32())
    }

    /// Returns the all-zero address.
    pub fn zero() -> (r: Address)
        ensures
            r == Address::spec_zero(),
    {
        Address(zero_bytes32())
    }
}

/// Compares two 32-byte arrays.
pub fn bytes32_eq(a: &[u8; 32], b: &[u8; 32]) -> (r: bool)
    ensures
        r == (*a == *b),
{
    let mut i: usize = 0;
    while i < 32
        invariant
            0 <= i <= 32,
            forall|j: int| 0 <= j < i ==> a[j] == b[j],
        decreases 32 - i,
    {
        if a[i] != b[i] {
            return false;
        }
        i += 1;
    }
    proof {
        assert(*a =~= *b);
    }
    true
}

/// Types whose values can be compared exactly in executable code.
pub trait KeyEq: Sized {
    fn key_eq(&self, other: &Self) -> (r: bool)
        ensures
            r == (*self == *other),
    ;
}

impl KeyEq for Hash {
    fn key_eq(&self, other: &Self) -> (r: bool) {
        bytes32_eq(&self.0, &other.0)
    }
}

impl KeyEq for Address {
    fn key_eq(&self, other: &Self) -> (r: bool) {
        bytes32_eq(&self.0, &other.0)
    }
}

impl KeyEq for [u8; 32] {
    fn key_eq(&self, other: &Self) -> (r: bool) {
        bytes32_eq(self, other)
    }
}

impl KeyEq for u64 {
    fn key_eq(&self, other: &Self) -> (r: bool) {
        *self == *other
    }
}

/// Types that can be copied in executable code with a proof that the copy
/// has the same abstract value.
pub trait Duplicate: View + Sized {
    fn duplicate(&self) -> (r: Self)
        ensures
            r@ == self@,
    ;
}

impl View for Hash {
    type V = Hash;

    open spec fn view(&self) -> Hash {
        *self
    }
}

impl Duplicate for Hash {
    fn duplicate(&self) -> (r: Self) {
        *self
    }
}

/// Copies a byte vector.
pub fn copy_bytes(v: &Vec<u8>) -> (r: Vec<u8>)
    ensures
        r@ == v@,
{
    let mut out: Vec<u8> = Vec::new();
    let mut i: usize = 0;
    while i < v.len()
        invariant
            0 <= i <= v.len(),
            out@ == v@.subrange(0, i as int),
        decreases v.len() - i,
    {
        out.push(v[i]);
        i += 1;
        proof {
            assert(out@ =~= v@.subrange(0, i as int));
        }
    }
    proof {
        assert(out@ =~= v@);
    }
    out
}

impl Duplicate for Vec<u8> {
    fn duplicate(&self) -> (r: Self) {
        copy_bytes(self)
    }
}

} // verus!
