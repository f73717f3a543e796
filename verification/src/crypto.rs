//! Keys, signatures and content hashes.
//!
//! The arithmetic of Ed25519, the base-58 encoding and the content hash are
//! not part of this library. Each is reached through one small function
//! whose contract is taken on trust. What Ed25519 and the encoding compute is
//! given a name, so that the rest of the library can speak of it; what the
//! content hash computes is stated in full.

use vstd::prelude::*;
use vstd::string::StringExecFns;

verus! {

/// The content hash of `bytes`: starting from zero, each byte in turn is
/// added to 31 times what came before, in 64-bit arithmetic that wraps.
pub open spec fn fast_hash_of(bytes: Seq<u8>) -> i64
    decreases bytes.len(),
{
    if bytes.len() == 0 {
        0
    } else {
        fast_hash_of(bytes.drop_last()).wrapping_mul(31).wrapping_add(bytes.last() as i64)
    }
}

/// The Ed25519 public key that belongs to the secret key `secret`.
pub uninterp spec fn public_key_of(secret: Seq<u8>) -> Seq<u8>;

/// The Ed25519 signature that the secret key `secret` gives for `message`.
pub uninterp spec fn signature_of(secret: Seq<u8>, message: Seq<u8>) -> Seq<u8>;

/// Whether Ed25519 verification under the public key `public` accepts
/// `signature` for `message`.
pub uninterp spec fn signature_accepted(public: Seq<u8>, message: Seq<u8>, signature: Seq<u8>) -> bool;

/// The text that `bs58::encode` gives for `bytes`, in its default alphabet.
pub uninterp spec fn base58_of(bytes: Seq<u8>) -> Seq<char>;

/// Declares `ed25519_dalek::SignatureError`, the error of the verification
/// call. Nothing is said of what it holds; it is only told apart from
/// success.
#[verifier::external_type_specification]
#[verifier::external_body]
pub struct ExSignatureError(ed25519_dalek::SignatureError);

/// Calls `freenet_scaffold::util::fast_hash` and unwraps the `FastHash` it
/// returns. That function folds the bytes from the first to the last with
/// `hash.wrapping_mul(31).wrapping_add(byte as i64)`, starting from zero.
#[verifier::external_body]
fn hash_bytes(bytes: &[u8]) -> (hash: i64)
    ensures
        hash == fast_hash_of(bytes@),
{
    freenet_scaffold::util::fast_hash(bytes).0
}

/// Calls `ed25519_dalek::SigningKey::from_bytes` and `verifying_key`. The
/// public key is computed from the secret key alone.
#[verifier::external_body]
fn derive_public_key(secret: &[u8; 32]) -> (public: [u8; 32])
    ensures
        public@ == public_key_of(secret@),
{
    ed25519_dalek::SigningKey::from_bytes(secret).verifying_key().to_bytes()
}

/// Calls `ed25519_dalek::Signer::sign` on the signing key made from `secret`.
/// Ed25519 signing draws no randomness: the signature is computed from the
/// secret key and the message alone, and signing with such a key cannot fail.
#[verifier::external_body]
fn sign_bytes(secret: &[u8; 32], message: &[u8]) -> (signature: [u8; 64])
    ensures
        signature@ == signature_of(secret@, message@),
{
    let key = ed25519_dalek::SigningKey::from_bytes(secret);
    ed25519_dalek::Signer::sign(&key, message).to_bytes()
}

/// Calls `ed25519_dalek::VerifyingKey::from_bytes` and
/// `ed25519_dalek::Verifier::verify`. The outcome depends on the three byte
/// strings alone; it is an error when the key bytes are no curve point or the
/// signature does not fit key and message.
#[verifier::external_body]
fn verify_bytes(public: &[u8; 32], message: &[u8], signature: &[u8; 64]) -> (outcome: Result<(), ed25519_dalek::SignatureError>)
    ensures
        outcome is Ok <==> signature_accepted(public@, message@, signature@),
{
    let key = ed25519_dalek::VerifyingKey::from_bytes(public)?;
    ed25519_dalek::Verifier::verify(&key, message, &ed25519_dalek::Signature::from_bytes(signature))
}

/// Calls `bs58::encode` and `into_string`. The text is computed from the
/// bytes alone; encoding into a fresh string cannot fail.
#[verifier::external_body]
fn base58_text(bytes: &[u8]) -> (text: String)
    ensures
        text@ == base58_of(bytes@),
{
    bs58::encode(bytes).into_string()
}

/// A fixed-width content hash, used as a stable identifier.
pub fn fast_hash(bytes: &[u8]) -> (hash: i64)
    ensures
        hash == fast_hash_of(bytes@),
{
    hash_bytes(bytes)
}

/// An Ed25519 signature: 64 bytes.
#[derive(Clone, Copy, Debug, PartialEq, Eq, Hash)]
pub struct Signature {
    pub bytes: [u8; 64],
}

impl View for Signature {
    type V = Seq<u8>;

    open spec fn view(&self) -> Seq<u8> {
        self.bytes@
    }
}

impl Signature {
    pub fn from_bytes(bytes: [u8; 64]) -> (signature: Signature)
        ensures
            signature@ == bytes@,
    {
        Signature { bytes }
    }

    pub fn to_bytes(&self) -> (bytes: [u8; 64])
        ensures
            bytes@ == self@,
    {
        self.bytes
    }
}

/// An Ed25519 public key: 32 bytes. Not every value is a usable key; one that
/// is not is accepted nowhere.
#[derive(Clone, Copy, Debug, PartialEq, Eq, Hash)]
pub struct VerifyingKey {
    pub bytes: [u8; 32],
}

impl View for VerifyingKey {
    type V = Seq<u8>;

    open spec fn view(&self) -> Seq<u8> {
        self.bytes@
    }
}

impl VerifyingKey {
    pub fn from_bytes(bytes: [u8; 32]) -> (key: VerifyingKey)
        ensures
            key@ == bytes@,
    {
        VerifyingKey { bytes }
    }

    pub fn to_bytes(&self) -> (bytes: [u8; 32])
        ensures
            bytes@ == self@,
    {
        self.bytes
    }

    /// The text by which a user hands this key to the member who is to
    /// invite it: a fixed prefix, then the key in base 58.
    pub fn to_encoded_string(&self) -> (text: String)
        ensures
            text@ == "river:user:vk:"@ + base58_of(self@),
    {
        let encoded = base58_text(self.bytes.as_slice());
        "river:user:vk:".to_owned().concat(encoded.as_str())
    }

    /// Checks `signature` over `message` under this key.
    pub fn verify(&self, message: &[u8], signature: &Signature) -> (outcome: Result<(), crate::error::StateError>)
        ensures
            outcome == signature_outcome(signature_accepted(self@, message@, signature@)),
    {
        let accepted = verify_bytes(&self.bytes, message, &signature.bytes).is_ok();
        signature_result(accepted)
    }
}

/// What a signature check reports for a signature that was or was not
/// accepted.
pub open spec fn signature_outcome(accepted: bool) -> Result<(), crate::error::StateError> {
    if accepted {
        Ok(())
    } else {
        Err(crate::error::StateError::InvalidSignature)
    }
}

/// Turns the verdict on a signature into the result of a check.
pub fn signature_result(accepted: bool) -> (outcome: Result<(), crate::error::StateError>)
    ensures
        outcome == signature_outcome(accepted),
{
    if accepted {
        Ok(())
    } else {
        Err(crate::error::StateError::InvalidSignature)
    }
}

/// An Ed25519 secret key: 32 bytes.
#[derive(Clone, Copy)]
pub struct SigningKey {
    pub bytes: [u8; 32],
}

impl View for SigningKey {
    type V = Seq<u8>;

    open spec fn view(&self) -> Seq<u8> {
        self.bytes@
    }
}

impl SigningKey {
    pub fn from_bytes(bytes: [u8; 32]) -> (key: SigningKey)
        ensures
            key@ == bytes@,
    {
        SigningKey { bytes }
    }

    /// The public key that verifies what this key signs.
    pub fn verifying_key(&self) -> (key: VerifyingKey)
        ensures
            key@ == public_key_of(self@),
    {
        VerifyingKey { bytes: derive_public_key(&self.bytes) }
    }

    /// Signs `message`.
    pub fn sign(&self, message: &[u8]) -> (signature: Signature)
        ensures
            signature@ == signature_of(self@, message@),
    {
        Signature { bytes: sign_bytes(&self.bytes, message) }
    }
}

} // verus!
