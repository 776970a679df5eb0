//! The sponsor's wallet: one signing key, immutable after construction.
//!
//! The chain's signature format is assembled and proved here — scheme flag,
//! then the signature over the digest of the intent-wrapped payload, then
//! the public key — while the hash and the curve arithmetic come from
//! outside crates through trusted declarations.

use vstd::prelude::*;
use blake2::Digest;
use ed25519_dalek::Signer;

verus! {

/// The scheme flag the chain expects in front of an Ed25519 signature and in
/// front of the public key when an address is derived.
pub const ED25519_FLAG: u8 = 0;

/// The 32-byte BLAKE2b digest of a byte string; the chain hashes every
/// signing payload and every address preimage with it.
pub uninterp spec fn blake2b256_of(data: Seq<u8>) -> Seq<u8>;

/// Relies on blake2's `Blake2b256`: the digest depends on the input bytes
/// alone and is 32 bytes long.
#[verifier::external_body]
fn blake2b256(data: &Vec<u8>) -> (r: Vec<u8>)
    ensures
        r@ == blake2b256_of(data@),
        r@.len() == 32,
{
    let mut hasher = blake2::Blake2b256::new();
    hasher.update(data.as_slice());
    hasher.finalize().to_vec()
}

/// The Ed25519 signature of a message under a 32-byte secret key; the
/// scheme is deterministic, so the signature depends on key and message
/// alone.
pub uninterp spec fn ed25519_signature_of(secret: Seq<u8>, msg: Seq<u8>) -> Seq<u8>;

/// Relies on ed25519-dalek's `SigningKey::sign`: deterministic signing, 64
/// signature bytes.
#[verifier::external_body]
fn ed25519_sign(secret: &Vec<u8>, msg: &Vec<u8>) -> (r: Vec<u8>)
    requires
        secret@.len() == 32,
    ensures
        r@ == ed25519_signature_of(secret@, msg@),
        r@.len() == 64,
{
    let mut key = [0u8; 32];
    key.copy_from_slice(secret.as_slice());
    let signing_key = ed25519_dalek::SigningKey::from_bytes(&key);
    signing_key.sign(msg.as_slice()).to_bytes().to_vec()
}

/// The Ed25519 public key a 32-byte secret key determines.
pub uninterp spec fn ed25519_public_of(secret: Seq<u8>) -> Seq<u8>;

/// Relies on ed25519-dalek's `SigningKey::verifying_key`: the public key is
/// a function of the secret key and is 32 bytes long.
#[verifier::external_body]
fn ed25519_public(secret: &Vec<u8>) -> (r: Vec<u8>)
    requires
        secret@.len() == 32,
    ensures
        r@ == ed25519_public_of(secret@),
        r@.len() == 32,
{
    let mut key = [0u8; 32];
    key.copy_from_slice(secret.as_slice());
    let signing_key = ed25519_dalek::SigningKey::from_bytes(&key);
    signing_key.verifying_key().to_bytes().to_vec()
}

/// The full chain signature for a payload: flag, signature over the
/// payload's digest, public key.
pub open spec fn spec_chain_signature(secret: Seq<u8>, message: Seq<u8>) -> Seq<u8> {
    seq![ED25519_FLAG] + ed25519_signature_of(secret, blake2b256_of(message))
        + ed25519_public_of(secret)
}

/// The sponsor's address: the digest of the scheme flag and the public key.
pub open spec fn spec_address_of(secret: Seq<u8>) -> Seq<u8> {
    blake2b256_of(seq![ED25519_FLAG] + ed25519_public_of(secret))
}

/// Holds the sponsor's signing key; shared by reference and immutable, so
/// signing is pure.
pub struct Wallet {
    pub secret: Vec<u8>,
    pub public_key: Vec<u8>,
}

impl Wallet {
    /// Well-formed: a 32-byte secret whose public key was derived from it.
    pub open spec fn wf(&self) -> bool {
        self.secret@.len() == 32 && self.public_key@ == ed25519_public_of(self.secret@)
    }

    pub fn new(secret: Vec<u8>) -> (r: Wallet)
        requires
            secret@.len() == 32,
        ensures
            r.wf(),
            r.secret@ == secret@,
    {
        let public_key = ed25519_public(&secret);
        Wallet { secret, public_key }
    }

    /// The wallet's public key bytes.
    pub fn public(&self) -> (r: Vec<u8>)
        requires
            self.wf(),
        ensures
            r@ == ed25519_public_of(self.secret@),
    {
        let r = self.public_key.clone();
        assert(r@ =~= self.public_key@);
        r
    }

    /// The sponsor's on-chain address, derived from the public key.
    pub fn address(&self) -> (r: Vec<u8>)
        requires
            self.wf(),
        ensures
            r@ == spec_address_of(self.secret@),
            r@.len() == 32,
    {
        let mut preimage: Vec<u8> = Vec::new();
        preimage.push(ED25519_FLAG);
        let n = self.public_key.len();
        let mut i: usize = 0;
        while i < n
            invariant
                n == self.public_key@.len(),
                i <= n,
                preimage@ =~= seq![ED25519_FLAG] + self.public_key@.take(i as int),
            decreases n - i,
        {
            preimage.push(self.public_key[i]);
            i = i + 1;
        }
        assert(self.public_key@.take(n as int) =~= self.public_key@);
        blake2b256(&preimage)
    }

    /// Signs an intent-wrapped payload: the chain's signature layout over
    /// the payload's digest.
    pub fn sign(&self, message: &Vec<u8>) -> (r: Vec<u8>)
        requires
            self.wf(),
        ensures
            r@ == spec_chain_signature(self.secret@, message@),
    {
        let digest = blake2b256(message);
        let sig = ed25519_sign(&self.secret, &digest);
        let mut r: Vec<u8> = Vec::new();
        r.push(ED25519_FLAG);
        let n = sig.len();
        let mut i: usize = 0;
        while i < n
            invariant
                n == sig@.len(),
                i <= n,
                r@ =~= seq![ED25519_FLAG] + sig@.take(i as int),
            decreases n - i,
        {
            r.push(sig[i]);
            i = i + 1;
        }
        assert(sig@.take(n as int) =~= sig@);
        let m = self.public_key.len();
        let ghost base = r@;
        let mut j: usize = 0;
        while j < m
            invariant
                m == self.public_key@.len(),
                j <= m,
                r@ =~= base + self.public_key@.take(j as int),
            decreases m - j,
        {
            r.push(self.public_key[j]);
            j = j + 1;
        }
        assert(self.public_key@.take(m as int) =~= self.public_key@);
        r
    }
}

} // verus!
