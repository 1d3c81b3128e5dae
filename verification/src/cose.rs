//! The signed envelope and the keys that travel with it.
//!
//! An envelope holds protected headers, a payload and a signature. The
//! signature is made over the bytes of the protected headers followed by
//! the payload.

use crate::bytes::{append, equal};
use crate::cbor::{
    array_at, array_head, bytes_at, bytes_item, lemma_array_round_trip, lemma_bytes_round_trip,
    lemma_join4, lemma_join5, lemma_uint_round_trip, put_array, put_bytes, put_uint,
    read_array_of, read_bytes, read_uint, uint_at, uint_item,
};
use crate::crypto::{ed25519_public_key, public_key_of, PUBLIC_KEY_LEN};
use crate::optional::{
    lemma_opt_bytes_round_trip, lemma_opt_text_round_trip, lemma_opt_uint_round_trip,
    opt_bytes_at, opt_bytes_item, opt_text_at, opt_text_item, opt_text_view, opt_uint_at,
    opt_uint_item, opt_view, put_opt_bytes, put_opt_text, put_opt_uint, read_opt_bytes,
    read_opt_text, read_opt_uint,
};
use vstd::prelude::*;
use vstd::slice::slice_to_vec;
use vstd::utf8::encode_utf8;

verus! {

/// A signature algorithm.
#[derive(Clone, Copy, Debug, PartialEq, Eq, Structural)]
pub enum Algorithm {
    /// EdDSA over the curve Ed25519, the algorithm of every envelope that
    /// this library signs.
    EdDSA,
    /// Any other algorithm.
    Other,
}

/// The kind of a key.
#[derive(Clone, Copy, Debug, PartialEq, Eq, Structural)]
pub enum KeyType {
    /// An Ed25519 public key.
    Ed25519,
    /// Any other kind.
    Other,
}

/// A public key as it travels in an envelope.
#[derive(Debug)]
pub struct CoseKey {
    /// The tagged bytes of the identity that the key belongs to.
    pub kid: Vec<u8>,
    pub kty: KeyType,
    /// The raw bytes of the public key.
    pub x: Option<Vec<u8>>,
}

/// A key as a mathematical value.
pub ghost struct CoseKeyView {
    pub kid: Seq<u8>,
    pub kty: KeyType,
    pub x: Option<Seq<u8>>,
}

impl View for CoseKey {
    type V = CoseKeyView;

    open spec fn view(&self) -> CoseKeyView {
        CoseKeyView { kid: self.kid@, kty: self.kty, x: opt_view(self.x) }
    }
}

impl Clone for CoseKey {
    fn clone(&self) -> (r: Self)
        ensures
            r@ == self@,
    {
        CoseKey {
            kid: slice_to_vec(self.kid.as_slice()),
            kty: self.kty,
            x: match &self.x {
                Some(x) => Some(slice_to_vec(x.as_slice())),
                None => None,
            },
        }
    }
}

impl CoseKey {
    /// The Ed25519 public key `x` of the identity whose tagged bytes are
    /// `kid`.
    pub fn ed25519(kid: Vec<u8>, x: Vec<u8>) -> (r: CoseKey)
        ensures
            r@ == (CoseKeyView { kid: kid@, kty: KeyType::Ed25519, x: Some(x@) }),
    {
        CoseKey { kid, kty: KeyType::Ed25519, x: Some(x) }
    }
}

/// The number that stands for a kind of key.
pub open spec fn kty_code(kty: KeyType) -> u64 {
    match kty {
        KeyType::Ed25519 => 0,
        KeyType::Other => 1,
    }
}

/// The number that stands for an algorithm.
pub open spec fn alg_code(alg: Algorithm) -> u64 {
    match alg {
        Algorithm::EdDSA => 0,
        Algorithm::Other => 1,
    }
}

/// A key in bytes: an array of its identity, its kind and its optional raw
/// bytes.
pub open spec fn key_bytes(k: CoseKeyView) -> Seq<u8> {
    array_head(3) + bytes_item(k.kid) + uint_item(kty_code(k.kty)) + opt_bytes_item(k.x)
}

/// Keys in bytes, one behind the other.
pub open spec fn keys_bytes(keys: Seq<CoseKeyView>) -> Seq<u8>
    decreases keys.len(),
{
    if keys.len() == 0 {
        Seq::empty()
    } else {
        key_bytes(keys[0]) + keys_bytes(keys.drop_first())
    }
}

/// A set of keys in bytes: an array of the keys.
pub open spec fn keyset_bytes(keys: Seq<CoseKeyView>) -> Seq<u8> {
    array_head(keys.len() as u64) + keys_bytes(keys)
}

/// The key at `pos`, and the position behind it.
pub open spec fn key_at(input: Seq<u8>, pos: int) -> Option<(CoseKeyView, int)> {
    match array_at(input, pos) {
        Some((Some(n), at1)) => match bytes_at(input, at1) {
            Some((kid, at2)) => match uint_at(input, at2) {
                Some((t, at3)) => match opt_bytes_at(input, at3) {
                    Some((x, at4)) => if n == 3 && t <= 1 {
                        Some(
                            (
                                CoseKeyView {
                                    kid,
                                    kty: if t == 0 {
                                        KeyType::Ed25519
                                    } else {
                                        KeyType::Other
                                    },
                                    x,
                                },
                                at4,
                            ),
                        )
                    } else {
                        None
                    },
                    None => None,
                },
                None => None,
            },
            None => None,
        },
        _ => None,
    }
}

/// The `n` keys that are read from `pos` on, and the position behind them.
pub open spec fn keys_at(input: Seq<u8>, pos: int, n: nat) -> Option<(Seq<CoseKeyView>, int)>
    decreases n,
{
    if n == 0 {
        Some((Seq::empty(), pos))
    } else {
        match key_at(input, pos) {
            Some((k, p)) => match keys_at(input, p, (n - 1) as nat) {
                Some((rest, end)) => Some((seq![k] + rest, end)),
                None => None,
            },
            None => None,
        }
    }
}

/// The set of keys that bytes stand for, if any. Nothing may follow the
/// keys.
pub open spec fn keyset_of(input: Seq<u8>) -> Option<Seq<CoseKeyView>> {
    match array_at(input, 0) {
        Some((Some(n), p)) => match keys_at(input, p, n as nat) {
            Some((keys, end)) => if end == input.len() {
                Some(keys)
            } else {
                None
            },
            None => None,
        },
        _ => None,
    }
}

/// The first key of `keys` that belongs to the identity with the tagged
/// bytes `kid`.
pub open spec fn first_with_kid(keys: Seq<CoseKeyView>, kid: Seq<u8>) -> Option<CoseKeyView>
    decreases keys.len(),
{
    if keys.len() == 0 {
        None
    } else if keys[0].kid == kid {
        Some(keys[0])
    } else {
        first_with_kid(keys.drop_first(), kid)
    }
}

/// A set of public keys.
#[derive(Debug)]
pub struct CoseKeySet {
    pub keys: Vec<CoseKey>,
}

impl View for CoseKeySet {
    type V = Seq<CoseKeyView>;

    open spec fn view(&self) -> Seq<CoseKeyView> {
        self.keys@.map_values(|k: CoseKey| k@)
    }
}

impl Default for CoseKeySet {
    fn default() -> (r: Self)
        ensures
            r@ == Seq::<CoseKeyView>::empty(),
    {
        CoseKeySet::new()
    }
}

impl CoseKeySet {
    /// The set without keys.
    pub fn new() -> (r: CoseKeySet)
        ensures
            r@ == Seq::<CoseKeyView>::empty(),
    {
        let r = CoseKeySet { keys: Vec::new() };
        assert(r@ =~= Seq::<CoseKeyView>::empty());
        r
    }

    /// Adds `key` behind the keys of the set.
    pub fn insert(&mut self, key: CoseKey)
        ensures
            final(self)@ == old(self)@.push(key@),
    {
        self.keys.push(key);
        assert(self@ =~= old(self)@.push(key@));
    }

    /// The first key of the identity with the tagged bytes `kid`.
    pub fn get_kid(&self, kid: &[u8]) -> (r: Option<&CoseKey>)
        ensures
            r is Some <==> first_with_kid(self@, kid@) is Some,
            r matches Some(k) ==> Some(k@) == first_with_kid(self@, kid@),
    {
        let mut i: usize = 0;
        assert(self@.skip(0) =~= self@);
        while i < self.keys.len()
            invariant
                i <= self.keys.len(),
                first_with_kid(self@, kid@) == first_with_kid(self@.skip(i as int), kid@),
            decreases self.keys.len() - i,
        {
            let ghost rest = self@.skip(i as int);
            assert(rest[0] == self@[i as int]);
            assert(rest.drop_first() =~= self@.skip(i + 1));
            if equal(self.keys[i].kid.as_slice(), kid) {
                return Some(&self.keys[i]);
            }
            i += 1;
        }
        None
    }

    /// Writes the set to bytes.
    pub fn to_bytes(&self) -> (out: Vec<u8>)
        ensures
            out@ == keyset_bytes(self@),
    {
        let n = self.keys.len();
        let mut out: Vec<u8> = Vec::new();
        put_array(&mut out, n as u64);
        let ghost start = out@;
        let mut i: usize = 0;
        assert(self@.skip(0) =~= self@);
        while i < n
            invariant
                i <= n,
                n == self.keys.len(),
                start + keys_bytes(self@) == out@ + keys_bytes(self@.skip(i as int)),
            decreases n - i,
        {
            let ghost before = out@;
            let ghost rest = self@.skip(i as int);
            let key = &self.keys[i];
            put_array(&mut out, 3);
            put_bytes(&mut out, key.kid.as_slice());
            put_uint(
                &mut out,
                match key.kty {
                    KeyType::Ed25519 => 0,
                    KeyType::Other => 1,
                },
            );
            put_opt_bytes(&mut out, &key.x);
            assert(rest[0] == self@[i as int]);
            assert(rest.drop_first() =~= self@.skip(i + 1));
            assert(out@ =~= before + key_bytes(key@));
            assert(out@ + keys_bytes(self@.skip(i + 1)) =~= before + keys_bytes(rest));
            i += 1;
        }
        assert(out@ =~= start + keys_bytes(self@));
        out
    }

    fn read_key(input: &[u8], pos: usize) -> (r: Option<(CoseKey, usize)>)
        ensures
            r is Some <==> key_at(input@, pos as int) is Some,
            r matches Some((k, next)) ==> key_at(input@, pos as int) == Some((k@, next as int)),
    {
        let (n, at1) = match read_array_of(input, pos) {
            Some(found) => found,
            None => {
                return None;
            },
        };
        let (kid, at2) = match read_bytes(input, at1) {
            Some(found) => found,
            None => {
                return None;
            },
        };
        let (t, at3) = match read_uint(input, at2) {
            Some(found) => found,
            None => {
                return None;
            },
        };
        let (x, at4) = match read_opt_bytes(input, at3) {
            Some(found) => found,
            None => {
                return None;
            },
        };
        if n != 3 || t > 1 {
            return None;
        }
        let kty = if t == 0 {
            KeyType::Ed25519
        } else {
            KeyType::Other
        };
        Some((CoseKey { kid, kty, x }, at4))
    }

    /// Reads a set of keys from bytes.
    pub fn from_bytes(input: &[u8]) -> (r: Option<CoseKeySet>)
        ensures
            r is Some <==> keyset_of(input@) is Some,
            r matches Some(set) ==> Some(set@) == keyset_of(input@),
    {
        let (n, start) = match read_array_of(input, 0) {
            Some(found) => found,
            None => {
                return None;
            },
        };
        let mut set = CoseKeySet::new();
        let mut at: usize = start;
        let mut i: u64 = 0;
        while i < n
            invariant
                i <= n,
                array_at(input@, 0) == Some((Some(n), start as int)),
                keys_at(input@, start as int, n as nat) == (match keys_at(
                    input@,
                    at as int,
                    (n - i) as nat,
                ) {
                    Some((rest, end)) => Some((set@ + rest, end)),
                    None => None,
                }),
            decreases n - i,
        {
            let (key, next) = match CoseKeySet::read_key(input, at) {
                Some(found) => found,
                None => {
                    return None;
                },
            };
            proof {
                match keys_at(input@, next as int, (n - i - 1) as nat) {
                    Some((rest, end)) => {
                        assert(set@ + (seq![key@] + rest) =~= set@.push(key@) + rest);
                    },
                    None => {},
                }
            }
            set.insert(key);
            at = next;
            i += 1;
        }
        assert(set@ + Seq::<CoseKeyView>::empty() =~= set@);
        if at == input.len() {
            Some(set)
        } else {
            None
        }
    }
}

/// The headers of an envelope that its signature protects.
#[derive(Debug)]
pub struct ProtectedHeaders {
    /// The signature algorithm.
    pub alg: Option<Algorithm>,
    /// The tagged bytes of the identity of the sender.
    pub kid: Option<Vec<u8>>,
    /// The media type of the payload.
    pub content_type: Option<String>,
    /// A set of public keys in bytes, by which the signature can be
    /// verified.
    pub keyset: Option<Vec<u8>>,
}

/// The protected headers as a mathematical value.
pub ghost struct HeadersView {
    pub alg: Option<Algorithm>,
    pub kid: Option<Seq<u8>>,
    pub content_type: Option<Seq<char>>,
    pub keyset: Option<Seq<u8>>,
}

impl View for ProtectedHeaders {
    type V = HeadersView;

    open spec fn view(&self) -> HeadersView {
        HeadersView {
            alg: self.alg,
            kid: opt_view(self.kid),
            content_type: opt_text_view(self.content_type),
            keyset: opt_view(self.keyset),
        }
    }
}

/// The number of an optional algorithm.
pub open spec fn opt_alg_code(alg: Option<Algorithm>) -> Option<u64> {
    match alg {
        Some(a) => Some(alg_code(a)),
        None => None,
    }
}

/// The optional algorithm that an optional number stands for.
pub open spec fn opt_alg_of(code: Option<u64>) -> Option<Algorithm> {
    match code {
        Some(c) => Some(
            if c == 0 {
                Algorithm::EdDSA
            } else {
                Algorithm::Other
            },
        ),
        None => None,
    }
}

/// The headers in bytes: an array of the four optional headers.
pub open spec fn headers_bytes(h: HeadersView) -> Seq<u8> {
    array_head(4) + opt_uint_item(opt_alg_code(h.alg)) + opt_bytes_item(h.kid) + opt_text_item(
        h.content_type,
    ) + opt_bytes_item(h.keyset)
}

/// The headers at `pos`, and the position behind them.
pub open spec fn headers_at(input: Seq<u8>, pos: int) -> Option<(HeadersView, int)> {
    match array_at(input, pos) {
        Some((Some(n), at0)) => match opt_uint_at(input, at0) {
            Some((alg, at1)) => match opt_bytes_at(input, at1) {
                Some((kid, at2)) => match opt_text_at(input, at2) {
                    Some((content_type, at3)) => match opt_bytes_at(input, at3) {
                        Some((keyset, at4)) => if n == 4 && (alg matches Some(a) ==> a <= 1) {
                            Some(
                                (
                                    HeadersView {
                                        alg: opt_alg_of(alg),
                                        kid,
                                        content_type,
                                        keyset,
                                    },
                                    at4,
                                ),
                            )
                        } else {
                            None
                        },
                        None => None,
                    },
                    None => None,
                },
                None => None,
            },
            None => None,
        },
        _ => None,
    }
}

impl ProtectedHeaders {
    /// The headers in bytes.
    pub open spec fn spec_bytes(self) -> Seq<u8> {
        headers_bytes(self@)
    }

    /// Writes the headers to bytes.
    pub fn to_bytes(&self) -> (out: Vec<u8>)
        ensures
            out@ == self.spec_bytes(),
    {
        let mut out: Vec<u8> = Vec::new();
        put_array(&mut out, 4);
        put_opt_uint(
            &mut out,
            match self.alg {
                Some(Algorithm::EdDSA) => Some(0),
                Some(Algorithm::Other) => Some(1),
                None => None,
            },
        );
        put_opt_bytes(&mut out, &self.kid);
        put_opt_text(&mut out, &self.content_type);
        put_opt_bytes(&mut out, &self.keyset);
        assert(out@ =~= self.spec_bytes());
        out
    }

    /// Reads the headers at `pos`.
    pub fn read(input: &[u8], pos: usize) -> (r: Option<(ProtectedHeaders, usize)>)
        ensures
            r is Some <==> headers_at(input@, pos as int) is Some,
            r matches Some((h, next)) ==> headers_at(input@, pos as int) == Some(
                (h@, next as int),
            ),
    {
        let (n, at0) = match read_array_of(input, pos) {
            Some(found) => found,
            None => {
                return None;
            },
        };
        let (code, at1) = match read_opt_uint(input, at0) {
            Some(found) => found,
            None => {
                return None;
            },
        };
        let (kid, at2) = match read_opt_bytes(input, at1) {
            Some(found) => found,
            None => {
                return None;
            },
        };
        let (content_type, at3) = match read_opt_text(input, at2) {
            Some(found) => found,
            None => {
                return None;
            },
        };
        let (keyset, at4) = match read_opt_bytes(input, at3) {
            Some(found) => found,
            None => {
                return None;
            },
        };
        let alg = match code {
            Some(c) => {
                if c == 0 {
                    Some(Algorithm::EdDSA)
                } else if c == 1 {
                    Some(Algorithm::Other)
                } else {
                    return None;
                }
            },
            None => None,
        };
        if n != 4 {
            return None;
        }
        Some((ProtectedHeaders { alg, kid, content_type, keyset }, at4))
    }
}

/// A signed envelope.
#[derive(Debug)]
pub struct CoseSign1 {
    pub protected: ProtectedHeaders,
    /// The encoded message.
    pub payload: Option<Vec<u8>>,
    /// The signature over the protected headers and the payload; none on
    /// an envelope that nobody signed.
    pub signature: Option<Vec<u8>>,
}

/// An envelope as a mathematical value.
pub ghost struct Sign1View {
    pub protected: HeadersView,
    pub payload: Option<Seq<u8>>,
    pub signature: Option<Seq<u8>>,
}

impl View for CoseSign1 {
    type V = Sign1View;

    open spec fn view(&self) -> Sign1View {
        Sign1View {
            protected: self.protected@,
            payload: opt_view(self.payload),
            signature: opt_view(self.signature),
        }
    }
}

/// An envelope in bytes: an array of the headers, the optional payload and
/// the optional signature.
pub open spec fn sign1_bytes(e: Sign1View) -> Seq<u8> {
    array_head(3) + headers_bytes(e.protected) + opt_bytes_item(e.payload) + opt_bytes_item(
        e.signature,
    )
}

/// The envelope that bytes stand for, if any. Nothing may follow it.
pub open spec fn sign1_of(input: Seq<u8>) -> Option<Sign1View> {
    match array_at(input, 0) {
        Some((Some(n), at0)) => match headers_at(input, at0) {
            Some((protected, at1)) => match opt_bytes_at(input, at1) {
                Some((payload, at2)) => match opt_bytes_at(input, at2) {
                    Some((signature, at3)) => if n == 3 && at3 == input.len() {
                        Some(Sign1View { protected, payload, signature })
                    } else {
                        None
                    },
                    None => None,
                },
                None => None,
            },
            None => None,
        },
        _ => None,
    }
}

impl CoseSign1 {
    /// The bytes that the signature is made over: the bytes of the
    /// protected headers, then the payload.
    pub open spec fn spec_signed_content(self) -> Seq<u8> {
        self.protected.spec_bytes() + (match self.payload {
            Some(p) => p@,
            None => Seq::empty(),
        })
    }

    /// The bytes that the signature is made over.
    pub fn signed_content(&self) -> (out: Vec<u8>)
        ensures
            out@ == self.spec_signed_content(),
    {
        let mut out = self.protected.to_bytes();
        match &self.payload {
            Some(p) => {
                append(&mut out, p.as_slice());
            },
            None => {
                assert(out@ =~= self.spec_signed_content());
            },
        }
        out
    }

    /// Writes the envelope to bytes.
    pub fn to_bytes(&self) -> (out: Vec<u8>)
        ensures
            out@ == sign1_bytes(self@),
    {
        let mut out: Vec<u8> = Vec::new();
        put_array(&mut out, 3);
        let headers = self.protected.to_bytes();
        append(&mut out, headers.as_slice());
        put_opt_bytes(&mut out, &self.payload);
        put_opt_bytes(&mut out, &self.signature);
        out
    }

    /// Reads an envelope from bytes.
    pub fn from_bytes(input: &[u8]) -> (r: Option<CoseSign1>)
        ensures
            r is Some <==> sign1_of(input@) is Some,
            r matches Some(e) ==> sign1_of(input@) == Some(e@),
    {
        let (n, at0) = match read_array_of(input, 0) {
            Some(found) => found,
            None => {
                return None;
            },
        };
        let (protected, at1) = match ProtectedHeaders::read(input, at0) {
            Some(found) => found,
            None => {
                return None;
            },
        };
        let (payload, at2) = match read_opt_bytes(input, at1) {
            Some(found) => found,
            None => {
                return None;
            },
        };
        let (signature, at3) = match read_opt_bytes(input, at2) {
            Some(found) => found,
            None => {
                return None;
            },
        };
        if n != 3 || at3 != input.len() {
            return None;
        }
        Some(CoseSign1 { protected, payload, signature })
    }
}

/// The private key material of a signer: a PKCS#8 document that holds an
/// Ed25519 key pair.
#[derive(Debug)]
pub struct KeyPair {
    pub pkcs8: Vec<u8>,
}

impl KeyPair {
    /// The key material in the document `pkcs8`; nothing is read of it yet.
    pub fn from_pkcs8(pkcs8: Vec<u8>) -> (r: KeyPair)
        ensures
            r.pkcs8@ == pkcs8@,
    {
        KeyPair { pkcs8 }
    }

    /// The public key of the pair, which is 32 bytes long; none where the
    /// document holds no Ed25519 key pair.
    pub fn public_key(&self) -> (r: Option<Vec<u8>>)
        ensures
            r is Some <==> ed25519_public_key(self.pkcs8@) is Some,
            r matches Some(k) ==> ed25519_public_key(self.pkcs8@) == Some(k@) && k@.len()
                == PUBLIC_KEY_LEN,
    {
        public_key_of(self.pkcs8.as_slice())
    }
}

/// Whether the byte strings of a key are shorter than 2^64 bytes.
pub open spec fn key_fits(k: CoseKeyView) -> bool {
    k.kid.len() <= u64::MAX && (k.x matches Some(x) ==> x.len() <= u64::MAX)
}

/// A key that was written is read back, wherever it stands.
pub proof fn lemma_key_round_trip(pre: Seq<u8>, k: CoseKeyView, post: Seq<u8>)
    requires
        key_fits(k),
    ensures
        key_at(pre + key_bytes(k) + post, pre.len() as int) == Some(
            (k, (pre.len() + key_bytes(k).len()) as int),
        ),
{
    let a = array_head(3);
    let b = bytes_item(k.kid);
    let u = uint_item(kty_code(k.kty));
    let x = opt_bytes_item(k.x);
    lemma_join4(pre, a, b, u, x, post);
    lemma_array_round_trip(pre, 3, b + u + x + post);
    lemma_bytes_round_trip(pre + a, k.kid, u + x + post);
    lemma_uint_round_trip(pre + a + b, kty_code(k.kty), x + post);
    lemma_opt_bytes_round_trip(pre + a + b + u, k.x, post);
}

/// Whether every key of `keys` fits.
pub open spec fn keys_fit(keys: Seq<CoseKeyView>) -> bool {
    forall|i: int| 0 <= i < keys.len() ==> key_fits(#[trigger] keys[i])
}

proof fn lemma_keys_first(pre: Seq<u8>, keys: Seq<CoseKeyView>, post: Seq<u8>)
    requires
        keys.len() > 0,
        keys_fit(keys),
    ensures
        key_at(pre + keys_bytes(keys) + post, pre.len() as int) == Some(
            (keys[0], (pre.len() + key_bytes(keys[0]).len()) as int),
        ),
        pre + keys_bytes(keys) + post == (pre + key_bytes(keys[0])) + keys_bytes(
            keys.drop_first(),
        ) + post,
        keys_bytes(keys).len() == key_bytes(keys[0]).len() + keys_bytes(keys.drop_first()).len(),
        keys_fit(keys.drop_first()),
{
    let k = key_bytes(keys[0]);
    let tail = keys.drop_first();
    let rest = keys_bytes(tail);
    let input = pre + keys_bytes(keys) + post;
    assert(key_fits(keys[0]));
    assert forall|i: int| 0 <= i < tail.len() implies key_fits(#[trigger] tail[i]) by {
        assert(tail[i] == keys[i + 1]);
    }
    assert(input =~= pre + k + (rest + post));
    assert(input =~= (pre + k) + rest + post);
    lemma_key_round_trip(pre, keys[0], rest + post);
}

proof fn lemma_keys_step(input: Seq<u8>, keys: Seq<CoseKeyView>, at0: int, at1: int, end: int)
    requires
        keys.len() > 0,
        key_at(input, at0) == Some((keys[0], at1)),
        keys_at(input, at1, (keys.len() - 1) as nat) == Some((keys.drop_first(), end)),
    ensures
        keys_at(input, at0, keys.len()) == Some((keys, end)),
{
    assert(seq![keys[0]] + keys.drop_first() =~= keys);
}

/// Keys that were written are read back, wherever they stand.
pub proof fn lemma_keys_round_trip(pre: Seq<u8>, keys: Seq<CoseKeyView>, post: Seq<u8>)
    requires
        keys_fit(keys),
    ensures
        keys_at(pre + keys_bytes(keys) + post, pre.len() as int, keys.len()) == Some(
            (keys, (pre.len() + keys_bytes(keys).len()) as int),
        ),
    decreases keys.len(),
{
    if keys.len() == 0 {
        assert(keys =~= Seq::<CoseKeyView>::empty());
        assert(keys_bytes(keys).len() == 0);
    } else {
        let k = key_bytes(keys[0]);
        let tail = keys.drop_first();
        let at1 = (pre.len() + k.len()) as int;
        lemma_keys_first(pre, keys, post);
        lemma_keys_round_trip(pre + k, tail, post);
        lemma_keys_step(
            pre + keys_bytes(keys) + post,
            keys,
            pre.len() as int,
            at1,
            (at1 + keys_bytes(tail).len()) as int,
        );
    }
}

/// A set of keys that was written to bytes is read back from them.
pub proof fn lemma_keyset_round_trip(keys: Seq<CoseKeyView>)
    requires
        keys_fit(keys),
        keys.len() <= u64::MAX,
    ensures
        keyset_of(keyset_bytes(keys)) == Some(keys),
{
    let a = array_head(keys.len() as u64);
    let input = keyset_bytes(keys);
    assert(input == Seq::<u8>::empty() + a + keys_bytes(keys)) by {
        assert(input =~= Seq::<u8>::empty() + a + keys_bytes(keys));
    }
    lemma_array_round_trip(Seq::empty(), keys.len() as u64, keys_bytes(keys));
    assert(input == a + keys_bytes(keys) + Seq::<u8>::empty()) by {
        assert(input =~= a + keys_bytes(keys) + Seq::<u8>::empty());
    }
    lemma_keys_round_trip(a, keys, Seq::empty());
}

/// Whether every item of the headers is shorter than 2^64 bytes.
pub open spec fn headers_fit(h: HeadersView) -> bool {
    &&& h.kid matches Some(b) ==> b.len() <= u64::MAX
    &&& h.content_type matches Some(t) ==> encode_utf8(t).len() <= u64::MAX
    &&& h.keyset matches Some(b) ==> b.len() <= u64::MAX
}

/// Headers that were written are read back, wherever they stand.
pub proof fn lemma_headers_round_trip(pre: Seq<u8>, h: HeadersView, post: Seq<u8>)
    requires
        headers_fit(h),
    ensures
        headers_at(pre + headers_bytes(h) + post, pre.len() as int) == Some(
            (h, (pre.len() + headers_bytes(h).len()) as int),
        ),
{
    let a = array_head(4);
    let g = opt_uint_item(opt_alg_code(h.alg));
    let k = opt_bytes_item(h.kid);
    let t = opt_text_item(h.content_type);
    let s = opt_bytes_item(h.keyset);
    lemma_join5(pre, a, g, k, t, s, post);
    lemma_array_round_trip(pre, 4, g + k + t + s + post);
    lemma_opt_uint_round_trip(pre + a, opt_alg_code(h.alg), k + t + s + post);
    lemma_opt_bytes_round_trip(pre + a + g, h.kid, t + s + post);
    lemma_opt_text_round_trip(pre + a + g + k, h.content_type, s + post);
    lemma_opt_bytes_round_trip(pre + a + g + k + t, h.keyset, post);
    assert(opt_alg_of(opt_alg_code(h.alg)) == h.alg);
}

/// Whether every item of the envelope is shorter than 2^64 bytes.
pub open spec fn sign1_fits(e: Sign1View) -> bool {
    &&& headers_fit(e.protected)
    &&& e.payload matches Some(b) ==> b.len() <= u64::MAX
    &&& e.signature matches Some(b) ==> b.len() <= u64::MAX
}

/// An envelope that was written to bytes is read back from them.
pub proof fn lemma_sign1_round_trip(e: Sign1View)
    requires
        sign1_fits(e),
    ensures
        sign1_of(sign1_bytes(e)) == Some(e),
{
    let a = array_head(3);
    let h = headers_bytes(e.protected);
    let p = opt_bytes_item(e.payload);
    let s = opt_bytes_item(e.signature);
    let none = Seq::<u8>::empty();
    assert(sign1_bytes(e) == none + (a + h + p + s) + none) by {
        assert(sign1_bytes(e) =~= none + (a + h + p + s) + none);
    }
    lemma_join4(none, a, h, p, s, none);
    lemma_array_round_trip(none, 3, h + p + s + none);
    lemma_headers_round_trip(none + a, e.protected, p + s + none);
    lemma_opt_bytes_round_trip(none + a + h, e.payload, s + none);
    lemma_opt_bytes_round_trip(none + a + h + p, e.signature, none);
}

} // verus!
