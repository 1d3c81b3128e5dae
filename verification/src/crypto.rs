//! The hash and the signatures, which other crates compute.

use vstd::prelude::*;

verus! {

/// The length of a SHA3-224 digest.
pub const DIGEST_LEN: usize = 28;

/// The length of an Ed25519 public key.
pub const PUBLIC_KEY_LEN: usize = 32;

/// The SHA3-224 digest of `data`.
pub uninterp spec fn sha3_224(data: Seq<u8>) -> Seq<u8>;

/// Whether `signature` is a valid Ed25519 signature of `message` under the
/// public key `public_key`.
pub uninterp spec fn ed25519_valid(public_key: Seq<u8>, message: Seq<u8>, signature: Seq<u8>) -> bool;

/// The public key of the Ed25519 key pair that the PKCS#8 document `pkcs8`
/// holds; none where it holds no such key pair.
pub uninterp spec fn ed25519_public_key(pkcs8: Seq<u8>) -> Option<Seq<u8>>;

/// The Ed25519 signature of `message` by the key pair that the PKCS#8
/// document `pkcs8` holds; none where it holds no such key pair.
pub uninterp spec fn ed25519_signature(pkcs8: Seq<u8>, message: Seq<u8>) -> Option<Seq<u8>>;

/// `sha3::Sha3_224::digest`: the SHA3-224 digest of `data`, which is 28
/// bytes long.
#[verifier::external_body]
pub(crate) fn digest(data: &[u8]) -> (out: Vec<u8>)
    ensures
        out@ == sha3_224(data@),
        out@.len() == DIGEST_LEN,
{
    <sha3::Sha3_224 as sha3::Digest>::digest(data).to_vec()
}

/// `ring::signature::UnparsedPublicKey::verify` with the algorithm
/// `ED25519`: whether `signature` is a valid signature of `message` under
/// `public_key`. It accepts nothing under bytes that are no public key.
#[verifier::external_body]
pub(crate) fn verify_signature(public_key: &[u8], message: &[u8], signature: &[u8]) -> (ok: bool)
    ensures
        ok == ed25519_valid(public_key@, message@, signature@),
{
    ring::signature::UnparsedPublicKey::new(&ring::signature::ED25519, public_key).verify(
        message,
        signature,
    ).is_ok()
}

/// `ring::signature::Ed25519KeyPair::from_pkcs8_maybe_unchecked`, then
/// `public_key`: the public key of the key pair in `pkcs8`, which is 32
/// bytes long; none where the document is rejected.
#[verifier::external_body]
pub(crate) fn public_key_of(pkcs8: &[u8]) -> (r: Option<Vec<u8>>)
    ensures
        r is Some <==> ed25519_public_key(pkcs8@) is Some,
        r matches Some(k) ==> ed25519_public_key(pkcs8@) == Some(k@) && k@.len() == PUBLIC_KEY_LEN,
{
    match ring::signature::Ed25519KeyPair::from_pkcs8_maybe_unchecked(pkcs8) {
        Ok(pair) => Some(ring::signature::KeyPair::public_key(&pair).as_ref().to_vec()),
        Err(_) => None,
    }
}

/// `ring::signature::Ed25519KeyPair::from_pkcs8_maybe_unchecked`, then
/// `sign`: the signature of `message` by the key pair in `pkcs8`; none where
/// the document is rejected, which is where it has no public key either.
/// The signature is valid under the public key of the pair.
#[verifier::external_body]
pub(crate) fn sign(pkcs8: &[u8], message: &[u8]) -> (r: Option<Vec<u8>>)
    ensures
        r is Some <==> ed25519_signature(pkcs8@, message@) is Some,
        r is Some <==> ed25519_public_key(pkcs8@) is Some,
        r matches Some(s) ==> ed25519_signature(pkcs8@, message@) == Some(s@) && ed25519_valid(
            ed25519_public_key(pkcs8@)->0,
            message@,
            s@,
        ),
{
    match ring::signature::Ed25519KeyPair::from_pkcs8_maybe_unchecked(pkcs8) {
        Ok(pair) => Some(pair.sign(message).as_ref().to_vec()),
        Err(_) => None,
    }
}

} // verus!
