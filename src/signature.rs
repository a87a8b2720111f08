//! Checking an ECDSA signature over a challenge with a verification-only
//! secp256k1 context.

use vstd::prelude::*;

verus! {

/// Whether `der` is a DER-encoded ECDSA signature that secp256k1 accepts.
pub uninterp spec fn der_signature_valid(der: Seq<u8>) -> bool;

/// Whether `key` is a serialized secp256k1 public key.
pub uninterp spec fn public_key_valid(key: Seq<u8>) -> bool;

/// Whether the signature `der` over the 32-byte message `msg` checks against `key`.
pub uninterp spec fn ecdsa_verifies(msg: Seq<u8>, der: Seq<u8>, key: Seq<u8>) -> bool;

/// Why a signature was refused. Callers outside report all three alike.
#[derive(Clone, Copy, Debug, PartialEq, Eq, Structural)]
pub enum SignatureError {
    MalformedSignature,
    MalformedKey,
    Mismatch,
}

/// Whether a signature was accepted, and if not, why.
pub type Verdict = Result<(), SignatureError>;

/// The verdict on a signature, given the three facts that decide it: the
/// signature is read first, then the key, then the two are checked together.
pub open spec fn signature_verdict(msg: Seq<u8>, der: Seq<u8>, key: Seq<u8>) -> Result<(), SignatureError> {
    if !der_signature_valid(der) {
        Err(SignatureError::MalformedSignature)
    } else if !public_key_valid(key) {
        Err(SignatureError::MalformedKey)
    } else if !ecdsa_verifies(msg, der, key) {
        Err(SignatureError::Mismatch)
    } else {
        Ok(())
    }
}

/// Relies on secp256k1's `Signature::from_der` and `PublicKey::from_slice` to
/// read the signature and the key, on `Message::from_slice`, which takes any 32
/// bytes, and on `verify_ecdsa` with a `Secp256k1::verification_only` context.
/// The message is the bytes themselves, not a digest of them.
#[verifier::external_body]
fn secp256k1_verify(msg: &[u8], der: &[u8], key: &[u8]) -> (r: Verdict)
    requires
        msg@.len() == 32,
    ensures
        !der_signature_valid(der@) ==> r == Verdict::Err(SignatureError::MalformedSignature),
        der_signature_valid(der@) && !public_key_valid(key@) ==> r == Verdict::Err(SignatureError::MalformedKey),
        der_signature_valid(der@) && public_key_valid(key@) ==> (r is Ok <==> ecdsa_verifies(msg@, der@, key@)),
        der_signature_valid(der@) && public_key_valid(key@) && r is Err ==> r == Verdict::Err(SignatureError::Mismatch),
{
    let sig = secp256k1::ecdsa::Signature::from_der(der).map_err(|_| SignatureError::MalformedSignature)?;
    let pk = secp256k1::PublicKey::from_slice(key).map_err(|_| SignatureError::MalformedKey)?;
    let msg = secp256k1::Message::from_slice(msg).map_err(|_| SignatureError::Mismatch)?;
    let secp = secp256k1::Secp256k1::verification_only();
    secp.verify_ecdsa(&msg, &sig, &pk).map_err(|_| SignatureError::Mismatch)
}

/// Checks that `der` is a valid signature by `key` over the challenge bytes.
pub fn verify_signature(challenge: &[u8], der: &[u8], key: &[u8]) -> (r: Result<(), SignatureError>)
    requires
        challenge@.len() == 32,
    ensures
        r == signature_verdict(challenge@, der@, key@),
{
    match secp256k1_verify(challenge, der, key) {
        Ok(()) => Ok(()),
        Err(e) => Err(e),
    }
}

} // verus!
