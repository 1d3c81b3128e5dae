use omni::cose::{Algorithm, CoseKey, CoseKeySet, CoseSign1, KeyPair, KeyType, ProtectedHeaders};
use omni::message::error::OmniErrorCode;
use omni::message::{
    decode_request_from_cose_sign1, decode_response_from_cose_sign1,
    encode_cose_sign1_from_payload, encode_cose_sign1_from_request,
    encode_cose_sign1_from_response, CoseSign1RequestMessage, EnvelopeError,
};
use omni::{Identity, RequestMessage, ResponseMessage};
use ring::signature::KeyPair as PublicPart;

fn unhex(text: &str) -> Vec<u8> {
    (0..text.len() / 2).map(|i| u8::from_str_radix(&text[2 * i..2 * i + 2], 16).unwrap()).collect()
}

const SEED: &str = "9d61b19deffd5a60ba844af492ec2cc44449c5697b326919703bac031cae7f60";
const PUBLIC: &str = "d75a980182b10ab7d54bfed3c964073a0ee172f3daa62325af021a68f707511a";

/// A key pair that is written down: a PKCS#8 document around `SEED`.
fn fixed_pair() -> KeyPair {
    let mut doc = unhex("302e020100300506032b657004220420");
    doc.extend_from_slice(&unhex(SEED));
    KeyPair::from_pkcs8(doc)
}

fn fresh_pair() -> KeyPair {
    let rng = ring::rand::SystemRandom::new();
    let doc = ring::signature::Ed25519KeyPair::generate_pkcs8(&rng).unwrap();
    KeyPair::from_pkcs8(doc.as_ref().to_vec())
}

fn identity_of(pair: &KeyPair) -> Identity {
    Identity::from_public_key(&pair.public_key().unwrap()).unwrap()
}

fn request(from: Option<Identity>, to: Identity) -> RequestMessage {
    RequestMessage {
        from,
        to,
        method: "ledger.balance".to_string(),
        data: vec![1, 2, 3],
        timestamp: Some(1_600_000_000),
        nonce: None,
        attributes: vec![],
    }
}

fn response(from: Identity, to: Option<Identity>) -> ResponseMessage {
    ResponseMessage { from, to, data: vec![4, 5], timestamp: None, attributes: vec![] }
}

fn copy(e: &CoseSign1) -> CoseSign1 {
    CoseSign1 {
        protected: ProtectedHeaders {
            alg: e.protected.alg,
            kid: e.protected.kid.clone(),
            content_type: e.protected.content_type.clone(),
            keyset: e.protected.keyset.clone(),
        },
        payload: e.payload.clone(),
        signature: e.signature.clone(),
    }
}

/// Signs what `e` holds anew, with the library out of the way.
fn resign(e: &mut CoseSign1, pair: &KeyPair) {
    let signer = ring::signature::Ed25519KeyPair::from_pkcs8_maybe_unchecked(&pair.pkcs8).unwrap();
    e.signature = Some(signer.sign(&e.signed_content()).as_ref().to_vec());
}

fn verify(e: &CoseSign1) -> Result<Identity, EnvelopeError> {
    CoseSign1RequestMessage { sign1: copy(e) }.verify()
}

fn server() -> Identity {
    Identity::from_public_key_hash(b"the server")
}

#[test]
fn public_key_of_a_known_pair() {
    let pair = fixed_pair();
    assert_eq!(pair.public_key().unwrap(), unhex(PUBLIC));
    assert_eq!(fresh_pair().public_key().unwrap().len(), 32);
    assert_eq!(KeyPair::from_pkcs8(vec![]).public_key(), None);
    assert_eq!(KeyPair::from_pkcs8(unhex(SEED)).public_key(), None);
}

#[test]
fn signed_request_is_accepted() {
    for pair in [fixed_pair(), fresh_pair()] {
        let id = identity_of(&pair);
        let message = request(Some(id.clone()), server());
        let bytes = message.to_bytes();
        let envelope = encode_cose_sign1_from_request(message, id.clone(), &Some(pair)).unwrap();
        assert_eq!(envelope.payload, Some(bytes.clone()));
        assert_eq!(verify(&envelope), Ok(id.clone()));
        let back = decode_request_from_cose_sign1(envelope, Some(server())).unwrap();
        assert_eq!(back.to_bytes(), bytes);
        assert_eq!(back.from, Some(id));
        assert_eq!(back.to, server());
        assert_eq!(back.method, "ledger.balance");
    }
}

#[test]
fn signed_response_is_accepted() {
    let pair = fresh_pair();
    let id = identity_of(&pair);
    let client = Identity::from_public_key(&[3u8; 32]).unwrap();
    let message = response(id.clone(), Some(client.clone()));
    let bytes = message.to_bytes();
    let envelope = encode_cose_sign1_from_response(message, id.clone(), &Some(pair)).unwrap();
    let back = decode_response_from_cose_sign1(copy(&envelope), Some(client.clone())).unwrap();
    assert_eq!(back.to_bytes(), bytes);
    assert_eq!(back.from, id);
    let back = decode_response_from_cose_sign1(envelope, None).unwrap();
    assert_eq!(back.to, Some(client));
}

#[test]
fn addressable_identity_signs() {
    let pair = fresh_pair();
    let id = Identity::from_public_key_hash(&pair.public_key().unwrap());
    let envelope = encode_cose_sign1_from_payload(vec![9], id.clone(), &Some(pair)).unwrap();
    assert_eq!(verify(&envelope), Ok(id));
}

#[test]
fn envelope_holds_what_was_asked_for() {
    let pair = fixed_pair();
    let id = identity_of(&pair);
    let envelope = encode_cose_sign1_from_payload(vec![7, 7], id.clone(), &Some(fixed_pair())).unwrap();
    assert_eq!(envelope.protected.alg, Some(Algorithm::EdDSA));
    assert_eq!(envelope.protected.kid, Some(id.to_vec()));
    assert_eq!(envelope.protected.content_type, Some("application/cbor".to_string()));
    assert_eq!(envelope.payload, Some(vec![7, 7]));

    let mut keys = CoseKeySet::new();
    keys.insert(CoseKey::ed25519(id.to_vec(), unhex(PUBLIC)));
    assert_eq!(envelope.protected.keyset, Some(keys.to_bytes()));

    // The signature is that of the headers followed by the payload.
    let mut content = envelope.protected.to_bytes();
    content.extend_from_slice(&[7, 7]);
    assert_eq!(envelope.signed_content(), content);
    let signer = ring::signature::Ed25519KeyPair::from_pkcs8_maybe_unchecked(&pair.pkcs8).unwrap();
    assert_eq!(signer.public_key().as_ref(), &unhex(PUBLIC)[..]);
    assert_eq!(envelope.signature, Some(signer.sign(&content).as_ref().to_vec()));
    assert_eq!(envelope.signature.as_ref().unwrap().len(), 64);
}

#[test]
fn any_changed_byte_of_the_signature_is_refused() {
    let pair = fresh_pair();
    let id = identity_of(&pair);
    let message = request(Some(id.clone()), server());
    let envelope = encode_cose_sign1_from_request(message, id, &Some(pair)).unwrap();
    let signature = envelope.signature.clone().unwrap();
    for i in 0..signature.len() {
        for bit in [0x01u8, 0x80] {
            let mut changed = copy(&envelope);
            changed.signature.as_mut().unwrap()[i] ^= bit;
            assert_eq!(verify(&changed), Err(EnvelopeError::CouldNotVerifySignature));
            let e = decode_request_from_cose_sign1(changed, None).unwrap_err();
            assert_eq!(e.code, OmniErrorCode::CouldNotVerifySignature);
        }
    }
    let mut short = copy(&envelope);
    short.signature.as_mut().unwrap().pop();
    assert_eq!(verify(&short), Err(EnvelopeError::CouldNotVerifySignature));
    let mut none = copy(&envelope);
    none.signature = None;
    assert_eq!(verify(&none), Err(EnvelopeError::CouldNotVerifySignature));
}

#[test]
fn any_changed_byte_of_the_payload_is_refused() {
    let pair = fresh_pair();
    let id = identity_of(&pair);
    let message = request(Some(id.clone()), server());
    let envelope = encode_cose_sign1_from_request(message, id, &Some(pair)).unwrap();
    let payload = envelope.payload.clone().unwrap();
    for i in 0..payload.len() {
        let mut changed = copy(&envelope);
        changed.payload.as_mut().unwrap()[i] ^= 0x01;
        assert_eq!(verify(&changed), Err(EnvelopeError::CouldNotVerifySignature));
        assert_eq!(
            decode_response_from_cose_sign1(changed, None).unwrap_err(),
            EnvelopeError::CouldNotVerifySignature
        );
    }
    let mut longer = copy(&envelope);
    longer.payload.as_mut().unwrap().push(0);
    assert_eq!(verify(&longer), Err(EnvelopeError::CouldNotVerifySignature));
}

#[test]
fn changed_headers_are_refused() {
    let pair = fresh_pair();
    let id = identity_of(&pair);
    let envelope = encode_cose_sign1_from_payload(vec![1], id, &Some(pair)).unwrap();
    let mut changed = copy(&envelope);
    changed.protected.content_type = Some("application/json".to_string());
    assert_eq!(verify(&changed), Err(EnvelopeError::CouldNotVerifySignature));
    let mut changed = copy(&envelope);
    changed.protected.content_type = None;
    assert_eq!(verify(&changed), Err(EnvelopeError::CouldNotVerifySignature));
}

#[test]
fn anonymous_envelope_needs_no_signature() {
    let message = request(None, server());
    let bytes = message.to_bytes();
    let envelope = encode_cose_sign1_from_request(message, Identity::anonymous(), &None).unwrap();
    assert_eq!(envelope.signature, None);
    assert_eq!(envelope.protected.keyset, None);
    assert_eq!(envelope.protected.kid, Some(vec![0]));
    assert_eq!(verify(&envelope), Ok(Identity::anonymous()));
    let mut with_noise = copy(&envelope);
    with_noise.signature = Some(vec![1, 2, 3]);
    with_noise.protected.keyset = Some(vec![0xff]);
    with_noise.protected.alg = Some(Algorithm::Other);
    assert_eq!(verify(&with_noise), Ok(Identity::anonymous()));
    let back = decode_request_from_cose_sign1(envelope, Some(server())).unwrap();
    assert_eq!(back.to_bytes(), bytes);
    assert_eq!(back.from, None);
}

#[test]
fn envelope_without_key_id_is_refused() {
    let pair = fresh_pair();
    let id = identity_of(&pair);
    let mut e = encode_cose_sign1_from_payload(vec![1], id, &Some(pair)).unwrap();
    e.protected.kid = None;
    assert_eq!(verify(&e), Err(EnvelopeError::MissingKeyId));
    assert_eq!(
        decode_response_from_cose_sign1(copy(&e), None).unwrap_err(),
        EnvelopeError::MissingKeyId
    );
    // A request is answered with the one code that tells nothing.
    assert_eq!(
        decode_request_from_cose_sign1(e, None).unwrap_err().code,
        OmniErrorCode::CouldNotVerifySignature
    );
}

#[test]
fn key_id_that_is_no_identity_is_refused() {
    let mut e = encode_cose_sign1_from_payload(vec![1], Identity::anonymous(), &None).unwrap();
    for kid in [vec![], vec![9], vec![0, 0], vec![2, 1]] {
        e.protected.kid = Some(kid);
        assert_eq!(verify(&e), Err(EnvelopeError::InvalidKeyId));
    }
}

#[test]
fn envelope_without_the_key_of_its_sender_is_refused() {
    let pair = fresh_pair();
    let id = identity_of(&pair);
    let public = pair.public_key().unwrap();
    let good = encode_cose_sign1_from_payload(vec![1], id.clone(), &Some(fresh_pair_of(&pair))).unwrap();
    assert_eq!(verify(&good), Ok(id.clone()));

    let other = fresh_pair().public_key().unwrap();
    let sets: Vec<Option<Vec<CoseKey>>> = vec![
        None,
        Some(vec![]),
        // Under another identity.
        Some(vec![CoseKey::ed25519(vec![0], public.clone())]),
        // Another key under this identity.
        Some(vec![CoseKey::ed25519(id.to_vec(), other.clone())]),
        // The first key under the identity counts.
        Some(vec![
            CoseKey::ed25519(id.to_vec(), other),
            CoseKey::ed25519(id.to_vec(), public.clone()),
        ]),
        Some(vec![CoseKey { kid: id.to_vec(), kty: KeyType::Other, x: Some(public.clone()) }]),
        Some(vec![CoseKey { kid: id.to_vec(), kty: KeyType::Ed25519, x: None }]),
    ];
    for keys in sets {
        let mut e = copy(&good);
        e.protected.keyset = keys.map(|keys| CoseKeySet { keys }.to_bytes());
        resign(&mut e, &pair);
        assert_eq!(verify(&e), Err(EnvelopeError::CouldNotVerifySignature));
    }
    let mut e = copy(&good);
    e.protected.keyset = Some(vec![0x01, 0x02]);
    resign(&mut e, &pair);
    assert_eq!(verify(&e), Err(EnvelopeError::CouldNotVerifySignature));

    // The key may stand behind the keys of others.
    let mut e = copy(&good);
    let keys = vec![CoseKey::ed25519(vec![0], vec![1]), CoseKey::ed25519(id.to_vec(), public)];
    e.protected.keyset = Some(CoseKeySet { keys }.to_bytes());
    resign(&mut e, &pair);
    assert_eq!(verify(&e), Ok(id));
}

fn fresh_pair_of(pair: &KeyPair) -> KeyPair {
    KeyPair::from_pkcs8(pair.pkcs8.clone())
}

#[test]
fn other_algorithm_is_refused() {
    let pair = fresh_pair();
    let id = identity_of(&pair);
    let mut e = encode_cose_sign1_from_payload(vec![1], id.clone(), &Some(fresh_pair_of(&pair))).unwrap();
    e.protected.alg = Some(Algorithm::Other);
    resign(&mut e, &pair);
    assert_eq!(verify(&e), Err(EnvelopeError::CouldNotVerifySignature));
    e.protected.alg = None;
    resign(&mut e, &pair);
    assert_eq!(verify(&e), Ok(id));
}

#[test]
fn envelope_without_payload_is_refused() {
    let pair = fresh_pair();
    let id = identity_of(&pair);
    let mut e = encode_cose_sign1_from_payload(vec![1], id.clone(), &Some(fresh_pair_of(&pair))).unwrap();
    e.payload = None;
    resign(&mut e, &pair);
    assert_eq!(verify(&e), Ok(id));
    assert_eq!(
        decode_response_from_cose_sign1(copy(&e), None).unwrap_err(),
        EnvelopeError::EmptyEnvelope
    );
    let error = decode_request_from_cose_sign1(e, None).unwrap_err();
    assert_eq!(error.code, OmniErrorCode::EmptyEnvelope);
    assert_eq!(error.to_string(), "An envelope must contain a payload.");

    let mut e = encode_cose_sign1_from_payload(vec![], Identity::anonymous(), &None).unwrap();
    e.payload = None;
    assert_eq!(
        decode_request_from_cose_sign1(e, None).unwrap_err().code,
        OmniErrorCode::EmptyEnvelope
    );
}

#[test]
fn payload_that_is_no_message_is_refused() {
    let pair = fresh_pair();
    let id = identity_of(&pair);
    let e = encode_cose_sign1_from_payload(vec![0x01, 0x02], id, &Some(pair)).unwrap();
    assert_eq!(
        decode_response_from_cose_sign1(copy(&e), None).unwrap_err(),
        EnvelopeError::InternalServerError
    );
    let error = decode_request_from_cose_sign1(e, None).unwrap_err();
    assert_eq!(error.code, OmniErrorCode::InternalServerError);
    assert!(error.message.is_none());
    assert!(error.fields.is_empty());

    // A response is no request.
    let message = response(Identity::anonymous(), None);
    let e = encode_cose_sign1_from_response(message, Identity::anonymous(), &None).unwrap();
    assert_eq!(
        decode_request_from_cose_sign1(e, None).unwrap_err().code,
        OmniErrorCode::InternalServerError
    );
}

#[test]
fn message_of_another_sender_is_refused() {
    let pair = fresh_pair();
    let id = identity_of(&pair);
    let stranger = Identity::from_public_key(&[8u8; 32]).unwrap();
    for from in [Some(stranger.clone()), None, Some(Identity::anonymous())] {
        let message = request(from, server());
        let e = encode_cose_sign1_from_request(message, id.clone(), &Some(fresh_pair_of(&pair))).unwrap();
        assert_eq!(verify(&e), Ok(id.clone()));
        let error = decode_request_from_cose_sign1(e, Some(server())).unwrap_err();
        assert_eq!(error.code, OmniErrorCode::InvalidFromIdentity);
        assert_eq!(error.to_string(), "The identity of the from field is invalid or unexpected.");
    }
    // The public key and its address are two identities.
    let address = Identity::from_public_key_hash(&pair.public_key().unwrap());
    let e = encode_cose_sign1_from_request(request(Some(address), server()), id.clone(), &Some(fresh_pair_of(&pair))).unwrap();
    assert_eq!(
        decode_request_from_cose_sign1(e, None).unwrap_err().code,
        OmniErrorCode::InvalidFromIdentity
    );
    // An anonymous envelope proves no named sender.
    let e = encode_cose_sign1_from_request(request(Some(id.clone()), server()), Identity::anonymous(), &None).unwrap();
    assert_eq!(
        decode_request_from_cose_sign1(e, None).unwrap_err().code,
        OmniErrorCode::InvalidFromIdentity
    );
    // An anonymous sender may be written out.
    let e = encode_cose_sign1_from_request(request(Some(Identity::anonymous()), server()), Identity::anonymous(), &None).unwrap();
    assert!(decode_request_from_cose_sign1(e, None).is_ok());

    let e = encode_cose_sign1_from_response(response(stranger, None), id, &Some(pair)).unwrap();
    assert_eq!(
        decode_response_from_cose_sign1(e, None).unwrap_err(),
        EnvelopeError::InvalidFromIdentity
    );
}

#[test]
fn message_for_another_recipient_is_refused() {
    let pair = fresh_pair();
    let id = identity_of(&pair);
    let elsewhere = Identity::from_public_key(&[0xab, 0xcd]).unwrap();
    let message = request(Some(id.clone()), elsewhere.clone());
    let e = encode_cose_sign1_from_request(message, id.clone(), &Some(fresh_pair_of(&pair))).unwrap();
    let error = decode_request_from_cose_sign1(copy(&e), Some(server())).unwrap_err();
    assert_eq!(error.code, OmniErrorCode::UnknownDestination);
    assert_eq!(error.message, None);
    assert_eq!(error.fields.len(), 2);
    assert_eq!(error.fields.get("to"), Some(&"01abcd".to_string()));
    assert_eq!(error.fields.get("this"), Some(&server().to_string()));
    assert_eq!(
        error.to_string(),
        format!("Unknown destination for message.\nThis is \"{}\", message was for \"01abcd\".", server().to_string())
    );
    // Any recipient is accepted where none is expected.
    assert!(decode_request_from_cose_sign1(copy(&e), None).is_ok());
    assert!(decode_request_from_cose_sign1(e, Some(elsewhere.clone())).is_ok());

    let message = response(id.clone(), Some(elsewhere.clone()));
    let e = encode_cose_sign1_from_response(message, id.clone(), &Some(fresh_pair_of(&pair))).unwrap();
    assert_eq!(
        decode_response_from_cose_sign1(copy(&e), Some(server())).unwrap_err(),
        EnvelopeError::UnknownDestination
    );
    assert!(decode_response_from_cose_sign1(e, Some(elsewhere)).is_ok());
    // A response without recipient is for the anonymous identity.
    let e = encode_cose_sign1_from_response(response(id.clone(), None), id.clone(), &Some(fresh_pair_of(&pair))).unwrap();
    assert!(decode_response_from_cose_sign1(copy(&e), Some(Identity::anonymous())).is_ok());
    assert_eq!(
        decode_response_from_cose_sign1(e, Some(server())).unwrap_err(),
        EnvelopeError::UnknownDestination
    );
}

#[test]
fn sender_is_checked_before_recipient() {
    let pair = fresh_pair();
    let id = identity_of(&pair);
    let e = encode_cose_sign1_from_request(request(None, Identity::anonymous()), id, &Some(pair)).unwrap();
    assert_eq!(
        decode_request_from_cose_sign1(e, Some(server())).unwrap_err().code,
        OmniErrorCode::InvalidFromIdentity
    );
}

#[test]
fn key_material_must_hold_a_key_pair() {
    let id = Identity::from_public_key(&[1u8; 32]).unwrap();
    for doc in [vec![], vec![0x30, 0x00], unhex(SEED)] {
        let pair = Some(KeyPair::from_pkcs8(doc));
        assert_eq!(
            encode_cose_sign1_from_payload(vec![1], id.clone(), &pair).unwrap_err(),
            EnvelopeError::InvalidKeyPair
        );
        assert_eq!(
            encode_cose_sign1_from_payload(vec![1], Identity::anonymous(), &pair).unwrap_err(),
            EnvelopeError::InvalidKeyPair
        );
    }
}

#[test]
fn key_must_be_that_of_the_identity() {
    let pair = fresh_pair();
    let stranger = Identity::from_public_key(&[1u8; 32]).unwrap();
    let address = Identity::from_public_key_hash(&[1u8; 32]);
    for id in [stranger.clone(), address, Identity::anonymous()] {
        assert_eq!(
            encode_cose_sign1_from_payload(vec![1], id, &Some(fresh_pair_of(&pair))).unwrap_err(),
            EnvelopeError::IdentityKeyMismatch
        );
    }
    assert_eq!(
        encode_cose_sign1_from_payload(vec![1], stranger.clone(), &None).unwrap_err(),
        EnvelopeError::IdentityKeyMismatch
    );
    assert_eq!(
        encode_cose_sign1_from_request(request(None, server()), stranger.clone(), &None).unwrap_err(),
        EnvelopeError::IdentityKeyMismatch
    );
    assert_eq!(
        encode_cose_sign1_from_response(response(stranger.clone(), None), stranger, &None).unwrap_err(),
        EnvelopeError::IdentityKeyMismatch
    );
}

#[test]
fn key_of_an_identity_is_found_in_the_envelope() {
    let pair = fresh_pair();
    let id = identity_of(&pair);
    let public = pair.public_key().unwrap();
    let e = encode_cose_sign1_from_payload(vec![1], id.clone(), &Some(pair)).unwrap();
    let envelope = CoseSign1RequestMessage { sign1: e };
    let keys = envelope.get_keyset().unwrap();
    assert_eq!(keys.keys.len(), 1);
    assert_eq!(keys.keys[0].kid, id.to_vec());
    assert_eq!(keys.keys[0].kty, KeyType::Ed25519);
    assert_eq!(keys.keys[0].x, Some(public.clone()));
    assert_eq!(envelope.get_public_key_for_identity(&id), Some(public.clone()));
    assert_eq!(envelope.get_public_key_for_identity(&Identity::anonymous()), None);
    assert_eq!(envelope.get_public_key_for_identity(&Identity::from_public_key_hash(&public)), None);
    assert_eq!(envelope.get_public_key_for_identity(&server()), None);

    let e = encode_cose_sign1_from_payload(vec![1], Identity::anonymous(), &None).unwrap();
    let envelope = CoseSign1RequestMessage { sign1: e };
    assert!(envelope.get_keyset().is_none());
    assert_eq!(envelope.get_public_key_for_identity(&id), None);
}

#[test]
fn key_sets_round_trip() {
    let mut set = CoseKeySet::new();
    assert_eq!(set.to_bytes(), vec![0x80]);
    set.insert(CoseKey::ed25519(vec![1, 2], vec![3, 4, 5]));
    set.insert(CoseKey { kid: vec![], kty: KeyType::Other, x: None });
    set.insert(CoseKey::ed25519(vec![1, 2], vec![6]));
    let bytes = set.to_bytes();
    assert_eq!(
        bytes,
        vec![
            0x83, 0x83, 0x42, 1, 2, 0x00, 0x81, 0x43, 3, 4, 5, 0x83, 0x40, 0x01, 0x80, 0x83, 0x42,
            1, 2, 0x00, 0x81, 0x41, 6
        ]
    );
    let back = CoseKeySet::from_bytes(&bytes).unwrap();
    assert_eq!(back.keys.len(), 3);
    for (a, b) in back.keys.iter().zip(set.keys.iter()) {
        assert_eq!(a.kid, b.kid);
        assert_eq!(a.kty, b.kty);
        assert_eq!(a.x, b.x);
    }
    assert_eq!(back.get_kid(&[1, 2]).unwrap().x, Some(vec![3, 4, 5]));
    assert_eq!(back.get_kid(&[]).unwrap().kty, KeyType::Other);
    assert!(back.get_kid(&[1]).is_none());
    assert!(CoseKeySet::default().get_kid(&[]).is_none());
}

#[test]
fn malformed_key_sets_are_refused() {
    let good = vec![0x81, 0x83, 0x41, 1, 0x00, 0x81, 0x41, 2];
    assert!(CoseKeySet::from_bytes(&good).is_some());
    for cut in 0..good.len() {
        assert!(CoseKeySet::from_bytes(&good[..cut]).is_none());
    }
    let mut trailing = good.clone();
    trailing.push(0);
    assert!(CoseKeySet::from_bytes(&trailing).is_none());
    // A key of two items, a kind that is not known, a key id that is text,
    // a set of indefinite length.
    assert!(CoseKeySet::from_bytes(&[0x81, 0x82, 0x41, 1, 0x00, 0x81, 0x41, 2]).is_none());
    assert!(CoseKeySet::from_bytes(&[0x81, 0x83, 0x41, 1, 0x02, 0x81, 0x41, 2]).is_none());
    assert!(CoseKeySet::from_bytes(&[0x81, 0x83, 0x61, 1, 0x00, 0x81, 0x41, 2]).is_none());
    assert!(CoseKeySet::from_bytes(&[0x9f, 0xff]).is_none());
}

#[test]
fn protected_headers_in_bytes() {
    let none = ProtectedHeaders { alg: None, kid: None, content_type: None, keyset: None };
    assert_eq!(none.to_bytes(), vec![0x84, 0x80, 0x80, 0x80, 0x80]);
    let all = ProtectedHeaders {
        alg: Some(Algorithm::Other),
        kid: Some(vec![0]),
        content_type: Some("a/b".to_string()),
        keyset: Some(vec![0x80]),
    };
    assert_eq!(
        all.to_bytes(),
        vec![0x84, 0x81, 0x01, 0x81, 0x41, 0x00, 0x81, 0x63, b'a', b'/', b'b', 0x81, 0x41, 0x80]
    );
    let envelope = CoseSign1 { protected: none, payload: None, signature: None };
    assert_eq!(envelope.signed_content(), vec![0x84, 0x80, 0x80, 0x80, 0x80]);
}

fn same_envelope(a: &CoseSign1, b: &CoseSign1) -> bool {
    a.protected.alg == b.protected.alg
        && a.protected.kid == b.protected.kid
        && a.protected.content_type == b.protected.content_type
        && a.protected.keyset == b.protected.keyset
        && a.payload == b.payload
        && a.signature == b.signature
}

#[test]
fn envelopes_round_trip_through_bytes() {
    let pair = fresh_pair();
    let id = identity_of(&pair);
    let signed =
        encode_cose_sign1_from_request(request(Some(id.clone()), server()), id.clone(), &Some(pair))
            .unwrap();
    let anonymous =
        encode_cose_sign1_from_request(request(None, server()), Identity::anonymous(), &None)
            .unwrap();
    let bare = CoseSign1 {
        protected: ProtectedHeaders { alg: None, kid: None, content_type: None, keyset: None },
        payload: None,
        signature: None,
    };
    let odd = CoseSign1 {
        protected: ProtectedHeaders {
            alg: Some(Algorithm::Other),
            kid: Some(vec![]),
            content_type: Some(String::new()),
            keyset: Some(vec![]),
        },
        payload: Some(vec![]),
        signature: Some(vec![]),
    };
    for e in [signed, anonymous, bare, odd] {
        let bytes = e.to_bytes();
        let back = CoseSign1::from_bytes(&bytes).unwrap();
        assert!(same_envelope(&back, &e));
        assert_eq!(back.to_bytes(), bytes);
        assert_eq!(verify(&back), verify(&e));
    }
    // What was signed on one side is accepted on the other.
    let pair = fresh_pair();
    let id = identity_of(&pair);
    let message = request(Some(id.clone()), server());
    let sent = encode_cose_sign1_from_request(message, id.clone(), &Some(pair)).unwrap().to_bytes();
    let received = CoseSign1::from_bytes(&sent).unwrap();
    let back = decode_request_from_cose_sign1(received, Some(server())).unwrap();
    assert_eq!(back.from, Some(id));
}

#[test]
fn envelope_in_bytes() {
    let e = CoseSign1 {
        protected: ProtectedHeaders {
            alg: Some(Algorithm::EdDSA),
            kid: Some(vec![0]),
            content_type: None,
            keyset: None,
        },
        payload: Some(vec![7]),
        signature: None,
    };
    let bytes = vec![0x83, 0x84, 0x81, 0x00, 0x81, 0x41, 0x00, 0x80, 0x80, 0x81, 0x41, 0x07, 0x80];
    assert_eq!(e.to_bytes(), bytes);
    assert!(same_envelope(&CoseSign1::from_bytes(&bytes).unwrap(), &e));
    let (headers, next) = ProtectedHeaders::read(&bytes, 1).unwrap();
    assert_eq!(next, 9);
    assert_eq!(headers.to_bytes(), &bytes[1..9]);
    assert_eq!(headers.alg, Some(Algorithm::EdDSA));
    assert_eq!(headers.kid, Some(vec![0]));
}

#[test]
fn malformed_envelopes_are_refused() {
    let good = vec![0x83, 0x84, 0x81, 0x01, 0x81, 0x41, 0x00, 0x80, 0x80, 0x81, 0x41, 0x07, 0x80];
    assert!(CoseSign1::from_bytes(&good).is_some());
    for cut in 0..good.len() {
        assert!(CoseSign1::from_bytes(&good[..cut]).is_none());
    }
    let mut longer = good.clone();
    longer.push(0x80);
    assert!(CoseSign1::from_bytes(&longer).is_none());
    let cases: Vec<Vec<u8>> = vec![
        // Four parts announced, an envelope of indefinite length, three
        // headers announced, an algorithm that is not known.
        vec![0x84, 0x84, 0x81, 0x01, 0x81, 0x41, 0x00, 0x80, 0x80, 0x81, 0x41, 0x07, 0x80],
        vec![0x9f, 0x84, 0x81, 0x01, 0x81, 0x41, 0x00, 0x80, 0x80, 0x81, 0x41, 0x07, 0x80],
        vec![0x83, 0x83, 0x81, 0x01, 0x81, 0x41, 0x00, 0x80, 0x80, 0x81, 0x41, 0x07, 0x80],
        vec![0x83, 0x84, 0x81, 0x02, 0x81, 0x41, 0x00, 0x80, 0x80, 0x81, 0x41, 0x07, 0x80],
        // A key id that is text, a media type that is bytes, a payload that
        // is not optional.
        vec![0x83, 0x84, 0x81, 0x01, 0x81, 0x61, 0x00, 0x80, 0x80, 0x81, 0x41, 0x07, 0x80],
        vec![0x83, 0x84, 0x81, 0x01, 0x81, 0x41, 0x00, 0x81, 0x40, 0x80, 0x81, 0x41, 0x07, 0x80],
        vec![0x83, 0x84, 0x81, 0x01, 0x81, 0x41, 0x00, 0x80, 0x80, 0x41, 0x07, 0x80],
    ];
    for bytes in cases {
        assert!(CoseSign1::from_bytes(&bytes).is_none());
    }
    assert!(ProtectedHeaders::read(&good, 0).is_none());
    assert!(ProtectedHeaders::read(&good, good.len()).is_none());
}
