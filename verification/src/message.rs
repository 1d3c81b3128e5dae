//! Requests, responses and errors, and the envelopes that carry them.
//!
//! An envelope is verified in four steps: the key id of its protected
//! headers is read as the identity of the sender; an anonymous sender is
//! accepted as it is; for any other sender the key of that identity is
//! looked up among the keys that travel with the envelope, and the
//! signature is checked under it; at last the message in the payload is
//! read, and its sender and recipient are held against the envelope.

pub mod attributes;
pub mod error;
pub mod fields;
pub mod request;
pub mod response;

use crate::cose::{
    first_with_kid, key_fits, keyset_bytes, keyset_of, lemma_keyset_round_trip,
    lemma_sign1_round_trip, sign1_bytes, sign1_fits, sign1_of, Algorithm, CoseKey, CoseKeySet,
    CoseKeyView, CoseSign1, KeyPair, KeyType, ProtectedHeaders,
};
use crate::crypto::{
    ed25519_public_key, ed25519_signature, ed25519_valid, sign, verify_signature,
};
use crate::identity::{hex, identity_of, lemma_identity_round_trip, Identity, IdentityView};
use crate::message::error::{OmniError, OmniErrorCode, OmniErrorView};
use crate::message::fields::{lookup, put};
use crate::message::request::{
    lemma_request_round_trip, request_of, RequestMessage, RequestView,
};
use crate::message::response::{
    lemma_response_round_trip, response_of, ResponseMessage, ResponseView,
};
use crate::optional::opt_view;
use vstd::prelude::*;
use vstd::slice::slice_to_vec;

verus! {

/// Why bytes could not be read as a message or as an error.
#[derive(Clone, Copy, Debug, PartialEq, Eq, Structural)]
pub enum DecodeError {
    /// The bytes end too early, or an item is not of the expected type.
    Malformed,
    /// An item is a byte string as expected, but no identity.
    InvalidIdentity,
}

/// Why an envelope was not made or not accepted.
#[derive(Clone, Copy, Debug, PartialEq, Eq, Structural)]
pub enum EnvelopeError {
    /// The protected headers hold no key id.
    MissingKeyId,
    /// The key id is no identity.
    InvalidKeyId,
    /// No key of the sender travels with the envelope, or the signature is
    /// not valid under it, or it was made by another algorithm.
    CouldNotVerifySignature,
    /// The envelope has no payload.
    EmptyEnvelope,
    /// The payload is no message.
    InternalServerError,
    /// The sender that the message names is not the sender of the envelope.
    InvalidFromIdentity,
    /// The recipient that the message names is not the expected one.
    UnknownDestination,
    /// The key material of the signer holds no Ed25519 key pair.
    InvalidKeyPair,
    /// The key of the signer is not the key of the identity that signs.
    IdentityKeyMismatch,
}

/// The media type of the payload of every envelope that this library makes.
pub open spec fn content_type() -> Seq<char> {
    "application/cbor"@
}

/// The keys that travel with an envelope: those that its header `keyset`
/// stands for; none where it has no such header or the header is no set of
/// keys.
pub open spec fn keys_of(e: CoseSign1) -> Option<Seq<CoseKeyView>> {
    match e.protected.keyset {
        Some(b) => keyset_of(b@),
        None => None,
    }
}

/// The bytes of the public key of the identity `id` among the keys that
/// travel with the envelope: those of the first key under the tagged bytes
/// of `id`, if it is an Ed25519 key and the key of `id`. The anonymous
/// identity has no key.
pub open spec fn key_for(e: CoseSign1, id: IdentityView) -> Option<Seq<u8>> {
    if id is Anonymous {
        None
    } else {
        match keys_of(e) {
            Some(keys) => match first_with_kid(keys, id.bytes()) {
                Some(k) => if k.kty == KeyType::Ed25519 && k.x is Some && id.matches(Some(k)) {
                    k.x
                } else {
                    None
                },
                None => None,
            },
            None => None,
        }
    }
}

/// The sender that an envelope proves, or why it proves none.
pub open spec fn verified_sender(e: CoseSign1) -> Result<IdentityView, EnvelopeError> {
    match e.protected.kid {
        None => Err(EnvelopeError::MissingKeyId),
        Some(kid) => match identity_of(kid@) {
            None => Err(EnvelopeError::InvalidKeyId),
            Some(id) => if id is Anonymous {
                Ok(id)
            } else if e.protected.alg == Some(Algorithm::Other) {
                Err(EnvelopeError::CouldNotVerifySignature)
            } else {
                match (key_for(e, id), e.signature) {
                    (Some(key), Some(signature)) => if ed25519_valid(
                        key,
                        e.spec_signed_content(),
                        signature@,
                    ) {
                        Ok(id)
                    } else {
                        Err(EnvelopeError::CouldNotVerifySignature)
                    },
                    _ => Err(EnvelopeError::CouldNotVerifySignature),
                }
            },
        },
    }
}

/// An envelope that is to be verified.
#[derive(Debug)]
pub struct CoseSign1RequestMessage {
    pub sign1: CoseSign1,
}

impl CoseSign1RequestMessage {
    /// The keys that travel with the envelope.
    pub fn get_keyset(&self) -> (r: Option<CoseKeySet>)
        ensures
            r is Some <==> keys_of(self.sign1) is Some,
            r matches Some(set) ==> Some(set@) == keys_of(self.sign1),
    {
        match &self.sign1.protected.keyset {
            Some(b) => CoseKeySet::from_bytes(b.as_slice()),
            None => None,
        }
    }

    /// The bytes of the public key of `id` among the keys that travel with
    /// the envelope.
    pub fn get_public_key_for_identity(&self, id: &Identity) -> (r: Option<Vec<u8>>)
        ensures
            opt_view(r) == key_for(self.sign1, id@),
    {
        if id.is_anonymous() {
            return None;
        }
        let keyset = match self.get_keyset() {
            Some(set) => set,
            None => {
                return None;
            },
        };
        let kid = id.to_vec();
        let key = match keyset.get_kid(kid.as_slice()) {
            Some(k) => k.clone(),
            None => {
                return None;
            },
        };
        match key.kty {
            KeyType::Ed25519 => {},
            KeyType::Other => {
                return None;
            },
        }
        let bytes = match &key.x {
            Some(x) => slice_to_vec(x.as_slice()),
            None => {
                return None;
            },
        };
        let candidate = Some(key);
        if id.matches_key(&candidate) {
            Some(bytes)
        } else {
            None
        }
    }

    /// The sender that the envelope proves.
    pub fn verify(&self) -> (r: Result<Identity, EnvelopeError>)
        ensures
            r is Ok <==> verified_sender(self.sign1) is Ok,
            r matches Ok(id) ==> verified_sender(self.sign1) == Ok::<IdentityView, EnvelopeError>(
                id@,
            ) && id.wf(),
            r matches Err(e) ==> verified_sender(self.sign1) == Err::<IdentityView, EnvelopeError>(
                e,
            ),
    {
        let kid = match &self.sign1.protected.kid {
            Some(kid) => kid,
            None => {
                return Err(EnvelopeError::MissingKeyId);
            },
        };
        let id = match Identity::from_bytes(kid.as_slice()) {
            Ok(id) => id,
            Err(_) => {
                return Err(EnvelopeError::InvalidKeyId);
            },
        };
        if id.is_anonymous() {
            return Ok(id);
        }
        match self.sign1.protected.alg {
            Some(Algorithm::Other) => {
                return Err(EnvelopeError::CouldNotVerifySignature);
            },
            _ => {},
        }
        let key = match self.get_public_key_for_identity(&id) {
            Some(key) => key,
            None => {
                return Err(EnvelopeError::CouldNotVerifySignature);
            },
        };
        let signature = match &self.sign1.signature {
            Some(s) => s,
            None => {
                return Err(EnvelopeError::CouldNotVerifySignature);
            },
        };
        let content = self.sign1.signed_content();
        if verify_signature(key.as_slice(), content.as_slice(), signature.as_slice()) {
            Ok(id)
        } else {
            Err(EnvelopeError::CouldNotVerifySignature)
        }
    }
}

/// The error of the code `code`, without message and fields.
pub open spec fn plain_error(code: OmniErrorCode) -> OmniErrorView {
    OmniErrorView { code, message: None, fields: Seq::empty() }
}

/// The error that tells that a message is for `to`, while this is `this`:
/// it carries both identities as texts in its fields.
pub open spec fn unknown_destination_error(to: IdentityView, this: IdentityView) -> OmniErrorView {
    OmniErrorView {
        code: OmniErrorCode::UnknownDestination,
        message: None,
        fields: put(seq![("to"@, hex(to.bytes()))], "this"@, hex(this.bytes())),
    }
}

/// The request that an envelope carries for the recipient `to`, or the
/// error that it is answered with: an envelope that proves no sender gives
/// `CouldNotVerifySignature`, one without payload `EmptyEnvelope`, a payload
/// that is no request `InternalServerError`, a request from another sender
/// than the proved one `InvalidFromIdentity`, and a request for another
/// recipient than `to`, where one is expected, `UnknownDestination`.
pub open spec fn request_outcome(e: CoseSign1, to: Option<IdentityView>) -> Result<
    RequestView,
    OmniErrorView,
> {
    match verified_sender(e) {
        Err(_) => Err(plain_error(OmniErrorCode::CouldNotVerifySignature)),
        Ok(from) => match e.payload {
            None => Err(plain_error(OmniErrorCode::EmptyEnvelope)),
            Some(payload) => match request_of(payload@) {
                Err(_) => Err(plain_error(OmniErrorCode::InternalServerError)),
                Ok(m) => if from != m.sender() {
                    Err(plain_error(OmniErrorCode::InvalidFromIdentity))
                } else if to is Some && to->0 != m.to {
                    Err(unknown_destination_error(m.to, to->0))
                } else {
                    Ok(m)
                },
            },
        },
    }
}

/// The response that an envelope carries for the recipient `to`, or why it
/// is refused.
pub open spec fn response_outcome(e: CoseSign1, to: Option<IdentityView>) -> Result<
    ResponseView,
    EnvelopeError,
> {
    match verified_sender(e) {
        Err(err) => Err(err),
        Ok(from) => match e.payload {
            None => Err(EnvelopeError::EmptyEnvelope),
            Some(payload) => match response_of(payload@) {
                Err(_) => Err(EnvelopeError::InternalServerError),
                Ok(m) => if from != m.from {
                    Err(EnvelopeError::InvalidFromIdentity)
                } else if to is Some && to->0 != m.recipient() {
                    Err(EnvelopeError::UnknownDestination)
                } else {
                    Ok(m)
                },
            },
        },
    }
}

/// The view of an optional identity.
pub open spec fn opt_id(id: Option<Identity>) -> Option<IdentityView> {
    match id {
        Some(id) => Some(id@),
        None => None,
    }
}

/// Verifies the envelope `sign1` and reads the request in it, which must
/// come from the sender that the envelope proves and, where `to` is given,
/// be meant for `to`.
pub fn decode_request_from_cose_sign1(sign1: CoseSign1, to: Option<Identity>) -> (r: Result<
    RequestMessage,
    OmniError,
>)
    ensures
        r is Ok <==> request_outcome(sign1, opt_id(to)) is Ok,
        r matches Ok(m) ==> request_outcome(sign1, opt_id(to)) == Ok::<RequestView, OmniErrorView>(
            m@,
        ),
        r matches Err(e) ==> request_outcome(sign1, opt_id(to)) == Err::<
            RequestView,
            OmniErrorView,
        >(e@),
{
    let request = CoseSign1RequestMessage { sign1 };
    let from_id = match request.verify() {
        Ok(id) => id,
        Err(_) => {
            return Err(OmniError::could_not_verify_signature());
        },
    };
    let message = match &request.sign1.payload {
        None => {
            return Err(OmniError::empty_envelope());
        },
        Some(payload) => match RequestMessage::from_bytes(payload.as_slice()) {
            Ok(m) => m,
            Err(_) => {
                return Err(OmniError::internal_server_error());
            },
        },
    };
    let sender = match &message.from {
        Some(id) => id.clone(),
        None => Identity::anonymous(),
    };
    if !from_id.equals(&sender) {
        return Err(OmniError::invalid_from_identity());
    }
    match &to {
        Some(to_id) => {
            if !to_id.equals(&message.to) {
                return Err(
                    OmniError::unknown_destination(message.to.to_string(), to_id.to_string()),
                );
            }
        },
        None => {},
    }
    Ok(message)
}

/// Verifies the envelope `sign1` and reads the response in it, which must
/// come from the sender that the envelope proves and, where `to` is given,
/// be meant for `to`.
pub fn decode_response_from_cose_sign1(sign1: CoseSign1, to: Option<Identity>) -> (r: Result<
    ResponseMessage,
    EnvelopeError,
>)
    ensures
        r is Ok <==> response_outcome(sign1, opt_id(to)) is Ok,
        r matches Ok(m) ==> response_outcome(sign1, opt_id(to)) == Ok::<
            ResponseView,
            EnvelopeError,
        >(m@),
        r matches Err(e) ==> response_outcome(sign1, opt_id(to)) == Err::<
            ResponseView,
            EnvelopeError,
        >(e),
{
    let request = CoseSign1RequestMessage { sign1 };
    let from_id = match request.verify() {
        Ok(id) => id,
        Err(e) => {
            return Err(e);
        },
    };
    let message = match &request.sign1.payload {
        None => {
            return Err(EnvelopeError::EmptyEnvelope);
        },
        Some(payload) => match ResponseMessage::from_bytes(payload.as_slice()) {
            Ok(m) => m,
            Err(_) => {
                return Err(EnvelopeError::InternalServerError);
            },
        },
    };
    if !from_id.equals(&message.from) {
        return Err(EnvelopeError::InvalidFromIdentity);
    }
    match &to {
        Some(to_id) => {
            let recipient = match &message.to {
                Some(id) => id.clone(),
                None => Identity::anonymous(),
            };
            if !to_id.equals(&recipient) {
                return Err(EnvelopeError::UnknownDestination);
            }
        },
        None => {},
    }
    Ok(message)
}

/// The key that travels with an envelope that `id` signs with the public
/// key `public_key`.
pub open spec fn signer_key(id: IdentityView, public_key: Seq<u8>) -> CoseKeyView {
    CoseKeyView { kid: id.bytes(), kty: KeyType::Ed25519, x: Some(public_key) }
}

/// Whether `e` is the envelope of `payload` under the identity `id`, before
/// it is signed: the algorithm is EdDSA, the key id is `id`, the payload is
/// `payload`, and the only key that travels with it is `key`, if there is
/// one.
pub open spec fn envelope_of(
    e: CoseSign1,
    payload: Seq<u8>,
    id: IdentityView,
    key: Option<CoseKeyView>,
) -> bool {
    &&& e.protected.alg == Some(Algorithm::EdDSA)
    &&& opt_view(e.protected.kid) == Some(id.bytes())
    &&& e.protected.content_type matches Some(t) && t@ == content_type()
    &&& opt_view(e.protected.keyset) == (match key {
        Some(k) => Some(keyset_bytes(seq![k])),
        None => None,
    })
    &&& opt_view(e.payload) == Some(payload)
}

/// What comes of making an envelope for `payload` under `id` with the key
/// material `pkcs8`: without key material only the anonymous identity gets
/// an envelope, which is not signed; with key material that holds no key
/// pair none is made; else the public key must be the key of `id`, and the
/// envelope carries it and is signed.
pub open spec fn envelope_outcome(id: IdentityView, pkcs8: Option<Seq<u8>>) -> Result<
    Option<Seq<u8>>,
    EnvelopeError,
> {
    match pkcs8 {
        None => if id is Anonymous {
            Ok(None)
        } else {
            Err(EnvelopeError::IdentityKeyMismatch)
        },
        Some(doc) => match ed25519_public_key(doc) {
            None => Err(EnvelopeError::InvalidKeyPair),
            Some(public_key) => if id.matches(Some(signer_key(id, public_key))) {
                Ok(Some(public_key))
            } else {
                Err(EnvelopeError::IdentityKeyMismatch)
            },
        },
    }
}

/// The key material of an optional key pair.
pub open spec fn opt_pkcs8(keypair: Option<KeyPair>) -> Option<Seq<u8>> {
    match keypair {
        Some(kp) => Some(kp.pkcs8@),
        None => None,
    }
}

/// Makes the envelope of `payload` under the identity `id` and signs it
/// with `keypair`, if there is one. The envelope that is made is one that
/// verification accepts as sent by `id`.
pub fn encode_cose_sign1_from_payload(
    payload: Vec<u8>,
    id: Identity,
    keypair: &Option<KeyPair>,
) -> (r: Result<CoseSign1, EnvelopeError>)
    ensures
        r is Ok <==> envelope_outcome(id@, opt_pkcs8(*keypair)) is Ok,
        r matches Err(e) ==> envelope_outcome(id@, opt_pkcs8(*keypair)) == Err::<
            Option<Seq<u8>>,
            EnvelopeError,
        >(e),
        r matches Ok(e) ==> match envelope_outcome(id@, opt_pkcs8(*keypair)) {
            Ok(Some(public_key)) => {
                &&& envelope_of(e, payload@, id@, Some(signer_key(id@, public_key)))
                &&& opt_view(e.signature) == ed25519_signature(
                    keypair->0.pkcs8@,
                    e.spec_signed_content(),
                )
                &&& e.signature is Some
                &&& ed25519_valid(public_key, e.spec_signed_content(), e.signature->0@)
            },
            Ok(None) => envelope_of(e, payload@, id@, None) && e.signature is None,
            Err(_) => false,
        },
        r matches Ok(e) ==> (id.wf() ==> verified_sender(e) == Ok::<IdentityView, EnvelopeError>(
            id@,
        )),
{
    let ghost bytes = payload@;
    let public_key = match keypair {
        Some(kp) => match kp.public_key() {
            Some(k) => Some(k),
            None => {
                return Err(EnvelopeError::InvalidKeyPair);
            },
        },
        None => None,
    };
    let maybe_cose_key = match public_key {
        Some(x) => Some(CoseKey::ed25519(id.to_vec(), x)),
        None => None,
    };
    if !id.matches_key(&maybe_cose_key) {
        return Err(EnvelopeError::IdentityKeyMismatch);
    }
    let keyset = match maybe_cose_key {
        Some(cose_key) => {
            let mut set = CoseKeySet::new();
            set.insert(cose_key);
            assert(set@ =~= seq![cose_key@]);
            Some(set.to_bytes())
        },
        None => None,
    };
    let protected = ProtectedHeaders {
        alg: Some(Algorithm::EdDSA),
        kid: Some(id.to_vec()),
        content_type: Some("application/cbor".to_owned()),
        keyset,
    };
    let mut cose = CoseSign1 { protected, payload: Some(payload), signature: None };
    match keypair {
        Some(kp) => {
            let content = cose.signed_content();
            let ghost before = cose;
            let signature = sign(kp.pkcs8.as_slice(), content.as_slice());
            cose.signature = signature;
            assert(cose.spec_signed_content() == before.spec_signed_content());
        },
        None => {},
    }
    proof {
        if id.wf() {
            match keypair {
                Some(kp) => {
                    let kid = cose.protected.kid->0;
                    assert(kid@.len() == kid.len());
                    lemma_signed_envelope_verifies(
                        cose,
                        bytes,
                        id@,
                        ed25519_public_key(kp.pkcs8@)->0,
                    );
                },
                None => {
                    lemma_identity_round_trip(id@);
                },
            }
        }
    }
    Ok(cose)
}

/// Makes the envelope of a response under the identity `id` and signs it
/// with `keypair`, if there is one.
pub fn encode_cose_sign1_from_response(
    response: ResponseMessage,
    id: Identity,
    keypair: &Option<KeyPair>,
) -> (r: Result<CoseSign1, EnvelopeError>)
    ensures
        r is Ok <==> envelope_outcome(id@, opt_pkcs8(*keypair)) is Ok,
        r matches Err(e) ==> envelope_outcome(id@, opt_pkcs8(*keypair)) == Err::<
            Option<Seq<u8>>,
            EnvelopeError,
        >(e),
        r matches Ok(e) ==> match envelope_outcome(id@, opt_pkcs8(*keypair)) {
            Ok(Some(public_key)) => {
                &&& envelope_of(e, response@.bytes(), id@, Some(signer_key(id@, public_key)))
                &&& opt_view(e.signature) == ed25519_signature(
                    keypair->0.pkcs8@,
                    e.spec_signed_content(),
                )
                &&& e.signature is Some
                &&& ed25519_valid(public_key, e.spec_signed_content(), e.signature->0@)
            },
            Ok(None) => envelope_of(e, response@.bytes(), id@, None) && e.signature is None,
            Err(_) => false,
        },
        r matches Ok(e) ==> (id.wf() ==> verified_sender(e) == Ok::<IdentityView, EnvelopeError>(
            id@,
        )),
{
    encode_cose_sign1_from_payload(response.to_bytes(), id, keypair)
}

/// Makes the envelope of a request under the identity `id` and signs it
/// with `keypair`, if there is one.
pub fn encode_cose_sign1_from_request(
    request: RequestMessage,
    id: Identity,
    keypair: &Option<KeyPair>,
) -> (r: Result<CoseSign1, EnvelopeError>)
    ensures
        r is Ok <==> envelope_outcome(id@, opt_pkcs8(*keypair)) is Ok,
        r matches Err(e) ==> envelope_outcome(id@, opt_pkcs8(*keypair)) == Err::<
            Option<Seq<u8>>,
            EnvelopeError,
        >(e),
        r matches Ok(e) ==> match envelope_outcome(id@, opt_pkcs8(*keypair)) {
            Ok(Some(public_key)) => {
                &&& envelope_of(e, request@.bytes(), id@, Some(signer_key(id@, public_key)))
                &&& opt_view(e.signature) == ed25519_signature(
                    keypair->0.pkcs8@,
                    e.spec_signed_content(),
                )
                &&& e.signature is Some
                &&& ed25519_valid(public_key, e.spec_signed_content(), e.signature->0@)
            },
            Ok(None) => envelope_of(e, request@.bytes(), id@, None) && e.signature is None,
            Err(_) => false,
        },
        r matches Ok(e) ==> (id.wf() ==> verified_sender(e) == Ok::<IdentityView, EnvelopeError>(
            id@,
        )),
{
    encode_cose_sign1_from_payload(request.to_bytes(), id, keypair)
}

/// An envelope that was signed is accepted: where an envelope under the
/// identity `id` carries the public key `public_key`, which is the key of
/// `id`, and its signature is valid under that key, it proves the sender
/// `id`.
pub proof fn lemma_signed_envelope_verifies(
    e: CoseSign1,
    payload: Seq<u8>,
    id: IdentityView,
    public_key: Seq<u8>,
)
    requires
        id.wf(),
        key_fits(signer_key(id, public_key)),
        envelope_of(e, payload, id, Some(signer_key(id, public_key))),
        id.matches(Some(signer_key(id, public_key))),
        e.signature is Some,
        ed25519_valid(public_key, e.spec_signed_content(), e.signature->0@),
    ensures
        verified_sender(e) == Ok::<IdentityView, EnvelopeError>(id),
{
    let key = signer_key(id, public_key);
    lemma_identity_round_trip(id);
    assert(keys_of(e) == Some(seq![key])) by {
        lemma_keyset_round_trip(seq![key]);
    }
    assert(first_with_kid(seq![key], id.bytes()) == Some(key));
}

/// An envelope of the anonymous identity is accepted without a look at its
/// signature: whatever its signature and its keys are, it proves the
/// anonymous sender.
pub proof fn lemma_anonymous_envelope_verifies(e: CoseSign1)
    requires
        e.protected.kid is Some,
        identity_of(e.protected.kid->0@) == Some(IdentityView::Anonymous),
    ensures
        verified_sender(e) == Ok::<IdentityView, EnvelopeError>(IdentityView::Anonymous),
{
}

/// The envelope of a named sender is accepted exactly where it carries the
/// key of that sender and a signature that is valid under that key for
/// the bytes of its protected headers followed by its payload, and was
/// not made by another algorithm. Every other such envelope is refused
/// with `CouldNotVerifySignature`.
pub proof fn lemma_only_valid_signatures_verify(e: CoseSign1, id: IdentityView)
    requires
        e.protected.kid is Some,
        identity_of(e.protected.kid->0@) == Some(id),
        !(id is Anonymous),
    ensures
        verified_sender(e) is Ok <==> {
            &&& e.protected.alg != Some(Algorithm::Other)
            &&& key_for(e, id) is Some
            &&& e.signature is Some
            &&& ed25519_valid(key_for(e, id)->0, e.spec_signed_content(), e.signature->0@)
        },
        verified_sender(e) is Ok ==> verified_sender(e) == Ok::<IdentityView, EnvelopeError>(id),
        verified_sender(e) is Err ==> verified_sender(e) == Err::<IdentityView, EnvelopeError>(
            EnvelopeError::CouldNotVerifySignature,
        ),
{
}

/// The payload is part of what is signed: two envelopes with the same
/// protected headers and different payloads ask for signatures of
/// different bytes.
pub proof fn lemma_payload_is_signed(a: CoseSign1, b: CoseSign1)
    requires
        a.protected@ == b.protected@,
        a.payload is Some,
        b.payload is Some,
        a.payload->0@ != b.payload->0@,
    ensures
        a.spec_signed_content() != b.spec_signed_content(),
{
    let h = a.protected.spec_bytes();
    let x = a.payload->0@;
    let y = b.payload->0@;
    assert(b.protected.spec_bytes() == h);
    if h + x == h + y {
        assert((h + x).skip(h.len() as int) =~= x);
        assert((h + y).skip(h.len() as int) =~= y);
    }
}

/// A request that names another sender than the one that its envelope
/// proves is refused with `InvalidFromIdentity`, though the signature is
/// valid.
pub proof fn lemma_foreign_sender_is_refused(e: CoseSign1, to: Option<IdentityView>)
    requires
        verified_sender(e) is Ok,
        e.payload is Some,
        request_of(e.payload->0@) is Ok,
        verified_sender(e)->Ok_0 != request_of(e.payload->0@)->Ok_0.sender(),
    ensures
        request_outcome(e, to) == Err::<RequestView, OmniErrorView>(
            plain_error(OmniErrorCode::InvalidFromIdentity),
        ),
{
}

/// A request for another recipient than the expected one is refused with
/// `UnknownDestination`, and the error carries both identities in its
/// fields: the recipient of the request under `to`, the expected one under
/// `this`.
pub proof fn lemma_foreign_recipient_is_refused(e: CoseSign1, to: IdentityView)
    requires
        verified_sender(e) is Ok,
        e.payload is Some,
        request_of(e.payload->0@) is Ok,
        verified_sender(e)->Ok_0 == request_of(e.payload->0@)->Ok_0.sender(),
        to != request_of(e.payload->0@)->Ok_0.to,
    ensures
        request_outcome(e, Some(to)) is Err,
        request_outcome(e, Some(to))->Err_0.code == OmniErrorCode::UnknownDestination,
        lookup(request_outcome(e, Some(to))->Err_0.fields, "to"@) == Some(
            hex(request_of(e.payload->0@)->Ok_0.to.bytes()),
        ),
        lookup(request_outcome(e, Some(to))->Err_0.fields, "this"@) == Some(hex(to.bytes())),
{
    let m = request_of(e.payload->0@)->Ok_0;
    let fields = unknown_destination_error(m.to, to).fields;
    reveal_strlit("to");
    reveal_strlit("this");
    assert("to"@.len() != "this"@.len());
    let first = seq![("to"@, hex(m.to.bytes()))];
    assert(first.last() == ("to"@, hex(m.to.bytes())));
    assert(first.drop_last() =~= Seq::<(Seq<char>, Seq<char>)>::empty());
    reveal_with_fuel(crate::sorted::put, 3);
    reveal_with_fuel(crate::sorted::lookup, 3);
    if crate::message::fields::key_lt("to"@, "this"@) {
        assert(fields == first.push(("this"@, hex(to.bytes()))));
        assert(fields.drop_last() =~= first);
    } else {
        let head = seq![("this"@, hex(to.bytes()))];
        assert(put(first.drop_last(), "this"@, hex(to.bytes())) == head);
        assert(fields == head.push(first.last()));
        assert(fields.drop_last() =~= head);
        assert(head.last() == ("this"@, hex(to.bytes())));
    }
}

/// A response that names another sender than the one that its envelope
/// proves is refused with `InvalidFromIdentity`, though the signature is
/// valid.
pub proof fn lemma_foreign_sender_of_response_is_refused(e: CoseSign1, to: Option<IdentityView>)
    requires
        verified_sender(e) is Ok,
        e.payload is Some,
        response_of(e.payload->0@) is Ok,
        verified_sender(e)->Ok_0 != response_of(e.payload->0@)->Ok_0.from,
    ensures
        response_outcome(e, to) == Err::<ResponseView, EnvelopeError>(
            EnvelopeError::InvalidFromIdentity,
        ),
{
}

/// A response for another recipient than the expected one is refused with
/// `UnknownDestination`.
pub proof fn lemma_foreign_recipient_of_response_is_refused(e: CoseSign1, to: IdentityView)
    requires
        verified_sender(e) is Ok,
        e.payload is Some,
        response_of(e.payload->0@) is Ok,
        verified_sender(e)->Ok_0 == response_of(e.payload->0@)->Ok_0.from,
        to != response_of(e.payload->0@)->Ok_0.recipient(),
    ensures
        response_outcome(e, Some(to)) == Err::<ResponseView, EnvelopeError>(
            EnvelopeError::UnknownDestination,
        ),
{
}

/// A request that its sender sealed arrives as it was: where an envelope
/// proves the sender of the request that it carries, the request is read
/// from it by any recipient that expects nobody or the recipient of the
/// request.
pub proof fn lemma_sealed_request_arrives(e: CoseSign1, m: RequestView, to: Option<IdentityView>)
    requires
        m.wf(),
        verified_sender(e) == Ok::<IdentityView, EnvelopeError>(m.sender()),
        opt_view(e.payload) == Some(m.bytes()),
        to matches Some(t) ==> t == m.to,
    ensures
        request_outcome(e, to) == Ok::<RequestView, OmniErrorView>(m),
{
    lemma_request_round_trip(m);
}

/// A response that its sender sealed arrives as it was.
pub proof fn lemma_sealed_response_arrives(
    e: CoseSign1,
    m: ResponseView,
    to: Option<IdentityView>,
)
    requires
        m.wf(),
        verified_sender(e) == Ok::<IdentityView, EnvelopeError>(m.from),
        opt_view(e.payload) == Some(m.bytes()),
        to matches Some(t) ==> t == m.recipient(),
    ensures
        response_outcome(e, to) == Ok::<ResponseView, EnvelopeError>(m),
{
    lemma_response_round_trip(m);
}

/// What an envelope proves depends on what it holds alone.
pub proof fn lemma_sender_by_view(a: CoseSign1, b: CoseSign1)
    requires
        a@ == b@,
    ensures
        verified_sender(a) == verified_sender(b),
        forall|to: Option<IdentityView>| request_outcome(a, to) == request_outcome(b, to),
        forall|to: Option<IdentityView>| response_outcome(a, to) == response_outcome(b, to),
{
    assert(opt_view(a.protected.kid) == opt_view(b.protected.kid));
    assert(opt_view(a.protected.keyset) == opt_view(b.protected.keyset));
    assert(opt_view(a.payload) == opt_view(b.payload));
    assert(opt_view(a.signature) == opt_view(b.signature));
    assert(a.spec_signed_content() == b.spec_signed_content());
    assert(keys_of(a) == keys_of(b));
    assert(verified_sender(a) == verified_sender(b));
}

/// An envelope that was written to bytes and read back from them proves
/// the sender that it proved before, and carries the same message.
pub proof fn lemma_envelope_survives_transport(e: CoseSign1, back: CoseSign1)
    requires
        sign1_fits(e@),
        sign1_of(sign1_bytes(e@)) == Some(back@),
    ensures
        back@ == e@,
        verified_sender(back) == verified_sender(e),
        forall|to: Option<IdentityView>| request_outcome(back, to) == request_outcome(e, to),
        forall|to: Option<IdentityView>| response_outcome(back, to) == response_outcome(e, to),
{
    lemma_sign1_round_trip(e@);
    lemma_sender_by_view(back, e);
}

} // verus!
