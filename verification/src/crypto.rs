//! Hashing and the signature scheme of the ledger's envelopes.
//!
//! Transaction hashes are SHA-256 digests of canonical encodings. Signatures
//! are modelled deterministically over the signer's public key and the signed
//! bytes; real asymmetric cryptography is an external collaborator of the
//! shell, and nothing in the state machine depends on more than the
//! equations stated here.

use vstd::prelude::*;

verus! {

/// The SHA-256 digest of a byte string: a function of the bytes alone.
pub uninterp spec fn sha256_of(bytes: Seq<u8>) -> Seq<u8>;

/// Relies on sha2::Sha256::digest: a 32-byte digest that depends on the
/// input bytes alone.
#[verifier::external_body]
pub fn sha256_digest(bytes: &Vec<u8>) -> (r: Vec<u8>)
    ensures
        r@ == sha256_of(bytes@),
        r@.len() == 32,
{
    <sha2::Sha256 as sha2::Digest>::digest(bytes.as_slice()).to_vec()
}

/// Compare two byte strings.
pub fn bytes_eq(a: &Vec<u8>, b: &Vec<u8>) -> (r: bool)
    ensures
        r == (a@ == b@),
{
    if a.len() != b.len() {
        assert(a@ != b@);
        return false;
    }
    let mut i: usize = 0;
    while i < a.len()
        invariant
            i <= a@.len(),
            a@.len() == b@.len(),
            forall|j: int| 0 <= j < i ==> a@[j] == b@[j],
        decreases a@.len() - i,
    {
        if a[i] != b[i] {
            assert(a@ != b@);
            return false;
        }
        i = i + 1;
    }
    assert(a@ =~= b@);
    true
}

/// Hash a transaction's bytes.
pub fn hash_tx(bytes: &Vec<u8>) -> (r: Vec<u8>)
    ensures
        r@ == sha256_of(bytes@),
        r@.len() == 32,
{
    sha256_digest(bytes)
}

/// A secret key: the seed of an Ed25519-style keypair.
pub enum SecretKey {
    Ed25519(Vec<u8>),
}

/// A public key, derived from the secret seed by hashing.
pub enum PublicKey {
    Ed25519(Vec<u8>),
}

/// A signature over a byte string.
pub enum Signature {
    Ed25519(Vec<u8>),
}

impl SecretKey {
    /// The seed bytes.
    pub open spec fn seed(&self) -> Seq<u8> {
        match self {
            SecretKey::Ed25519(b) => b@,
        }
    }

    /// The view of the public key this secret key determines.
    pub open spec fn public_view(&self) -> Seq<u8> {
        sha256_of(self.seed())
    }

    /// Derive the public key of this secret key.
    pub fn ref_to(&self) -> (r: PublicKey)
        ensures
            r.bytes() == self.public_view(),
    {
        match self {
            SecretKey::Ed25519(seed) => PublicKey::Ed25519(sha256_digest(seed)),
        }
    }
}

impl PublicKey {
    /// The key's bytes.
    pub open spec fn bytes(&self) -> Seq<u8> {
        match self {
            PublicKey::Ed25519(b) => b@,
        }
    }

    /// Clone the key.
    pub fn clone_key(&self) -> (r: PublicKey)
        ensures
            r.bytes() == self.bytes(),
    {
        match self {
            PublicKey::Ed25519(b) => PublicKey::Ed25519(clone_bytes(b)),
        }
    }

    /// Compare two keys.
    pub fn eq_key(&self, other: &PublicKey) -> (r: bool)
        ensures
            r == (self.bytes() == other.bytes()),
    {
        match (self, other) {
            (PublicKey::Ed25519(a), PublicKey::Ed25519(b)) => bytes_eq(a, b),
        }
    }
}

impl Signature {
    /// The signature's bytes.
    pub open spec fn bytes(&self) -> Seq<u8> {
        match self {
            Signature::Ed25519(b) => b@,
        }
    }
}

/// Copy a byte vector.
pub fn clone_bytes(b: &Vec<u8>) -> (r: Vec<u8>)
    ensures
        r@ == b@,
{
    let mut v: Vec<u8> = Vec::new();
    let mut i: usize = 0;
    while i < b.len()
        invariant
            i <= b@.len(),
            v@ == b@.subrange(0, i as int),
        decreases b@.len() - i,
    {
        v.push(b[i]);
        i = i + 1;
        assert(v@ =~= b@.subrange(0, i as int));
    }
    assert(b@.subrange(0, b@.len() as int) =~= b@);
    v
}

/// The bytes a signature commits to: the signer's public key followed by the
/// signed data.
pub open spec fn sig_payload(pk: Seq<u8>, data: Seq<u8>) -> Seq<u8> {
    pk + data
}

/// The signature value over `data` under the key with public bytes `pk`.
pub open spec fn sig_of(pk: Seq<u8>, data: Seq<u8>) -> Seq<u8> {
    sha256_of(sig_payload(pk, data))
}

/// The common signature scheme of the ledger.
pub struct SigScheme;

impl SigScheme {
    /// Sign `data` with `keypair`.
    pub fn sign(keypair: &SecretKey, data: &Vec<u8>) -> (r: Signature)
        ensures
            r.bytes() == sig_of(keypair.public_view(), data@),
    {
        let pk = keypair.ref_to();
        let mut payload = match &pk {
            PublicKey::Ed25519(b) => clone_bytes(b),
        };
        let mut i: usize = 0;
        while i < data.len()
            invariant
                i <= data@.len(),
                payload@ == pk.bytes() + data@.subrange(0, i as int),
            decreases data@.len() - i,
        {
            payload.push(data[i]);
            i = i + 1;
            assert(payload@ =~= pk.bytes() + data@.subrange(0, i as int));
        }
        assert(data@.subrange(0, data@.len() as int) =~= data@);
        Signature::Ed25519(sha256_digest(&payload))
    }

    /// Check that `sig` is the signature over `data` under `pk`.
    pub fn verify_signature(pk: &PublicKey, data: &Vec<u8>, sig: &Signature) -> (r: bool)
        ensures
            r == (sig.bytes() == sig_of(pk.bytes(), data@)),
    {
        let mut payload = match pk {
            PublicKey::Ed25519(b) => clone_bytes(b),
        };
        let mut i: usize = 0;
        while i < data.len()
            invariant
                i <= data@.len(),
                payload@ == pk.bytes() + data@.subrange(0, i as int),
            decreases data@.len() - i,
        {
            payload.push(data[i]);
            i = i + 1;
            assert(payload@ =~= pk.bytes() + data@.subrange(0, i as int));
        }
        assert(data@.subrange(0, data@.len() as int) =~= data@);
        let expected = sha256_digest(&payload);
        match sig {
            Signature::Ed25519(b) => bytes_eq(b, &expected),
        }
    }
}

/// The hash of a public key, from which implicit addresses are derived.
pub fn public_key_hash(pk: &PublicKey) -> (r: Vec<u8>)
    ensures
        r@ == sha256_of(pk.bytes()),
{
    match pk {
        PublicKey::Ed25519(b) => sha256_digest(b),
    }
}

} // verus!
