//! Keys and hashes as they travel on the wire: fixed-size byte strings.
//!
//! The library never computes on a key. Deriving a public key from a private
//! one and hashing it are the caller's business; the results are handed in.

use vstd::prelude::*;

verus! {

/// Bytes of a private key on the wire.
pub const PRIVATE_KEY_LEN: usize = 32;

/// Bytes of a public key on the wire.
pub const PUBLIC_KEY_LEN: usize = 32;

/// Bytes of a hash code.
pub const HASH_CODE_LEN: usize = 64;

/// An ECDSA private key.
#[derive(Debug, PartialEq, Eq, Clone, Copy)]
pub struct EcdsaPrivateKey {
    pub bytes: [u8; 32],
}

/// An ECDSA public key.
#[derive(Debug, PartialEq, Eq, Clone, Copy)]
pub struct EcdsaPublicKey {
    pub bytes: [u8; 32],
}

/// The identity of a peer: its EdDSA public key.
#[derive(Debug, PartialEq, Eq, Clone, Copy)]
pub struct PeerIdentity {
    pub bytes: [u8; 32],
}

/// A 512-bit hash.
#[derive(Debug, PartialEq, Eq, Clone, Copy)]
pub struct HashCode {
    pub bytes: [u8; 64],
}

impl EcdsaPrivateKey {
    /// The key made of zero bytes, sent where no key is given.
    pub fn zeros() -> (k: Self)
        ensures
            k.bytes@ == Seq::new(32, |i: int| 0u8),
    {
        let k = EcdsaPrivateKey { bytes: [0u8; 32] };
        assert(k.bytes@ =~= Seq::new(32, |i: int| 0u8));
        k
    }

    /// Reads the key that starts at index `at` of `src`.
    pub fn from_bytes(src: &[u8], at: usize) -> (k: Self)
        requires
            at + 32 <= src@.len(),
        ensures
            k.bytes@ == src@.subrange(at as int, at + 32),
    {
        let mut bytes = [0u8; 32];
        let n = src.len();
        let mut i: usize = 0;
        while i < 32
            invariant
                i <= 32,
                n == src@.len(),
                at + 32 <= src@.len(),
                forall|j: int| 0 <= j < i ==> bytes@[j] == src@[at + j],
            decreases 32 - i,
        {
            bytes[i] = src[at + i];
            i += 1;
        }
        assert(bytes@ =~= src@.subrange(at as int, at + 32));
        EcdsaPrivateKey { bytes }
    }
}

impl HashCode {
    /// Whether two hashes hold the same bytes.
    pub fn same(&self, other: &HashCode) -> (r: bool)
        ensures
            r == (self.bytes@ == other.bytes@),
            r == (*self == *other),
    {
        let mut i: usize = 0;
        while i < 64
            invariant
                i <= 64,
                forall|j: int| 0 <= j < i ==> self.bytes@[j] == other.bytes@[j],
            decreases 64 - i,
        {
            if self.bytes[i] != other.bytes[i] {
                return false;
            }
            i += 1;
        }
        assert(self.bytes@ =~= other.bytes@);
        assert(self.bytes == other.bytes);
        true
    }
}

} // verus!
