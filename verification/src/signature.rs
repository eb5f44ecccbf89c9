//! Ed25519 key pairs and SHA-256 digests.

use ring::digest;
use ring::error::{KeyRejected, Unspecified};
use ring::rand::SystemRandom;
use ring::signature::{Ed25519KeyPair, UnparsedPublicKey, ED25519};
use vstd::prelude::*;
use vstd::slice::slice_to_vec;

verus! {

#[verifier::external_type_specification]
#[verifier::external_body]
pub struct ExEd25519KeyPair(Ed25519KeyPair);

#[verifier::external_type_specification]
#[verifier::external_body]
pub struct ExUnspecified(Unspecified);

#[verifier::external_type_specification]
#[verifier::external_body]
pub struct ExKeyRejected(KeyRejected);

/// The longest input, in bytes, that is handed to a digest or a signature.
pub const MAX_HASHED_LEN: u64 = 0x1000_0000_0000_0000;

/// Length in bytes of a SHA-256 digest.
pub const HASH_LEN: usize = 32;

/// The SHA-256 digest of `data`.
pub uninterp spec fn sha256(data: Seq<u8>) -> Seq<u8>;

/// Whether `signature` is accepted as an Ed25519 signature of `message` under
/// the public key `pub_key`.
pub uninterp spec fn ed25519_accepts(pub_key: Seq<u8>, message: Seq<u8>, signature: Seq<u8>) -> bool;

/// Whether `signature` is a valid signature of `message` under `pub_key`: an
/// Ed25519 public key takes 32 bytes, a signature 64, and the signature is
/// accepted.
pub open spec fn signature_valid(pub_key: Seq<u8>, message: Seq<u8>, signature: Seq<u8>) -> bool {
    pub_key.len() == 32 && signature.len() == 64 && ed25519_accepts(pub_key, message, signature)
}

/// Whether `document` is taken as the unencrypted PKCS#8 document of an
/// Ed25519 key pair: one of version 2 that holds the private key and the
/// public key that belongs to it.
pub uninterp spec fn pkcs8_accepted(document: Seq<u8>) -> bool;

/// Trusted: `ring::digest::digest` with `SHA256`. The result is the SHA-256
/// digest of the input, which takes 32 bytes. The outside function gives up on
/// inputs of 2^61 bytes and more, which the bound leaves out.
#[verifier::external_body]
pub(crate) fn digest_sha256(data: &[u8]) -> (h: Vec<u8>)
    requires
        data@.len() <= MAX_HASHED_LEN,
    ensures
        h@ == sha256(data@),
        h@.len() == 32,
{
    digest::digest(&digest::SHA256, data).as_ref().to_vec()
}

/// Trusted: `Ed25519KeyPair::generate_pkcs8` on the system's random source.
/// Which document comes back is a matter of chance, and so is whether one
/// comes back; one that does is a PKCS#8 document of version 2 with the
/// public key of its private key, which the parser takes.
#[verifier::external_body]
fn generate_pkcs8() -> (r: Result<Vec<u8>, Unspecified>)
    ensures
        r matches Ok(document) ==> pkcs8_accepted(document@),
{
    let rng = SystemRandom::new();
    match Ed25519KeyPair::generate_pkcs8(&rng) {
        Ok(document) => Ok(document.as_ref().to_vec()),
        Err(e) => Err(e),
    }
}

/// Trusted: `Ed25519KeyPair::from_pkcs8`. Whether a document is taken depends
/// on its bytes alone.
#[verifier::external_body]
fn parse_pkcs8(document: &[u8]) -> (r: Result<Ed25519KeyPair, KeyRejected>)
    ensures
        r is Ok <==> pkcs8_accepted(document@),
{
    Ed25519KeyPair::from_pkcs8(document)
}

/// Trusted: `KeyPair::public_key` of an `Ed25519KeyPair`, whose bytes are
/// copied out. An Ed25519 public key takes 32 bytes.
#[verifier::external_body]
fn public_key_bytes(keypair: &Ed25519KeyPair) -> (pk: Vec<u8>)
    ensures
        pk@.len() == 32,
{
    ring::signature::KeyPair::public_key(keypair).as_ref().to_vec()
}

/// Why no key pair could be made.
#[derive(Debug, Clone, Copy, PartialEq, Eq, Structural)]
pub enum KeyError {
    /// The random source gave no key.
    Generation,
    /// The key document was refused.
    Rejected,
}

pub struct KeyPair {
    pub pub_key: Vec<u8>,
    keypair: Ed25519KeyPair,
}

impl KeyPair {
    /// The bytes of the public key.
    pub closed spec fn public_key(&self) -> Seq<u8> {
        self.pub_key@
    }

    /// A copy of the public key.
    pub fn public_key_vec(&self) -> (pk: Vec<u8>)
        ensures
            pk@ == self.public_key(),
    {
        slice_to_vec(self.pub_key.as_slice())
    }

    /// A fresh key pair. Which one is a matter of chance, and so is whether
    /// the random source gives one at all: that it gave none is the only
    /// error. The public key takes 32 bytes.
    pub fn new() -> (r: Result<KeyPair, KeyError>)
        ensures
            r matches Err(e) ==> e == KeyError::Generation,
            r matches Ok(k) ==> k.public_key().len() == 32,
    {
        KeyPair::from_generated(generate_pkcs8())
    }

    /// The key pair of what the generator gave. Where it gave no document,
    /// that is the error; where it gave one, the key pair is the one that the
    /// document holds.
    pub fn from_generated(generated: Result<Vec<u8>, Unspecified>) -> (r: Result<
        KeyPair,
        KeyError,
    >)
        ensures
            match generated {
                Ok(document) => {
                    &&& r is Ok <==> pkcs8_accepted(document@)
                    &&& r matches Err(e) ==> e == KeyError::Rejected
                },
                Err(_) => r matches Err(e) && e == KeyError::Generation,
            },
            r matches Ok(k) ==> k.public_key().len() == 32,
    {
        match generated {
            Ok(document) => KeyPair::from_pkcs8(document.as_slice()),
            Err(_) => Err(KeyError::Generation),
        }
    }

    /// The key pair that a PKCS#8 document holds. A document that is taken
    /// gives a key pair, whose public key takes 32 bytes; any other is
    /// rejected.
    pub fn from_pkcs8(document: &[u8]) -> (r: Result<KeyPair, KeyError>)
        ensures
            r is Ok <==> pkcs8_accepted(document@),
            r matches Err(e) ==> e == KeyError::Rejected,
            r matches Ok(k) ==> k.public_key().len() == 32,
    {
        match parse_pkcs8(document) {
            Ok(keypair) => {
                let pub_key = public_key_bytes(&keypair);
                Ok(KeyPair { pub_key, keypair })
            },
            Err(_) => Err(KeyError::Rejected),
        }
    }

    /// Trusted: `Ed25519KeyPair::sign`. An Ed25519 signature takes 64 bytes;
    /// nothing more is said of it.
    #[verifier::external_body]
    pub fn sign(&self, message: &[u8]) -> (sig: Vec<u8>)
        requires
            message@.len() <= MAX_HASHED_LEN,
        ensures
            sig@.len() == 64,
    {
        self.keypair.sign(message).as_ref().to_vec()
    }

    /// Trusted: `UnparsedPublicKey::verify` with `ED25519`. The answer depends
    /// on the three byte strings alone, and nothing is accepted but a
    /// signature of 64 bytes under a key of 32 bytes.
    #[verifier::external_body]
    pub fn verify_signature(pub_key: &[u8], message: &[u8], sign: &[u8]) -> (ok: bool)
        requires
            message@.len() <= MAX_HASHED_LEN,
        ensures
            ok == ed25519_accepts(pub_key@, message@, sign@),
            ok ==> sign@.len() == 64 && pub_key@.len() == 32,
    {
        let pub_key = UnparsedPublicKey::new(&ED25519, pub_key);
        pub_key.verify(message, sign).is_ok()
    }
}

} // verus!
