//! Who sends or receives a message: nobody in particular, the holder of a
//! public key, or the holder of the key behind an address.

use crate::bytes::{append, equal};
use crate::cose::{CoseKey, CoseKeyView};
use crate::crypto::{digest, sha3_224};
use vstd::prelude::*;
use vstd::slice::slice_to_vec;

verus! {

/// The length of an address: that of a SHA3-224 digest.
pub const ADDRESS_LEN: usize = 28;

/// The tag byte of the anonymous identity.
pub const TAG_ANONYMOUS: u8 = 0;

/// The tag byte of a public-key identity.
pub const TAG_PUBLIC_KEY: u8 = 1;

/// The tag byte of an addressable identity.
pub const TAG_ADDRESSABLE: u8 = 2;

/// Why bytes are no identity.
#[derive(Clone, Copy, Debug, PartialEq, Eq, Structural)]
pub enum IdentityError {
    /// The tag is unknown, or the bytes behind it have the wrong length.
    MalformedIdentity,
}

/// An identity.
#[derive(Debug)]
pub enum Identity {
    Anonymous,
    /// The raw bytes of a public key.
    PublicKey(Vec<u8>),
    /// The digest of a public key.
    Addressable(Vec<u8>),
}

/// An identity as a mathematical value.
pub ghost enum IdentityView {
    Anonymous,
    PublicKey(Seq<u8>),
    Addressable(Seq<u8>),
}

impl IdentityView {
    /// A public key is not empty, and an address has the length of a digest.
    pub open spec fn wf(self) -> bool {
        match self {
            IdentityView::Anonymous => true,
            IdentityView::PublicKey(k) => k.len() > 0,
            IdentityView::Addressable(h) => h.len() == ADDRESS_LEN,
        }
    }

    /// The tagged bytes of the identity: the tag, then the key or the address.
    pub open spec fn bytes(self) -> Seq<u8> {
        match self {
            IdentityView::Anonymous => seq![TAG_ANONYMOUS],
            IdentityView::PublicKey(k) => seq![TAG_PUBLIC_KEY] + k,
            IdentityView::Addressable(h) => seq![TAG_ADDRESSABLE] + h,
        }
    }

    /// Whether `key` is this identity's key: no key at all for the anonymous
    /// identity, a key with the same bytes for a public key, a key whose
    /// bytes have the same digest for an address.
    pub open spec fn matches(self, key: Option<CoseKeyView>) -> bool {
        match self {
            IdentityView::Anonymous => key is None,
            IdentityView::PublicKey(k) => material_of(key) == Some(k),
            IdentityView::Addressable(h) => material_of(key) is Some && sha3_224(
                material_of(key)->0,
            ) == h,
        }
    }
}

/// The identity that tagged bytes stand for, if any.
pub open spec fn identity_of(b: Seq<u8>) -> Option<IdentityView> {
    if b.len() == 1 && b[0] == TAG_ANONYMOUS {
        Some(IdentityView::Anonymous)
    } else if b.len() > 1 && b[0] == TAG_PUBLIC_KEY {
        Some(IdentityView::PublicKey(b.subrange(1, b.len() as int)))
    } else if b.len() == 1 + ADDRESS_LEN && b[0] == TAG_ADDRESSABLE {
        Some(IdentityView::Addressable(b.subrange(1, b.len() as int)))
    } else {
        None
    }
}

/// The key material of an optional key: the bytes of its `x`, where it has
/// them.
pub open spec fn material_of(key: Option<CoseKeyView>) -> Option<Seq<u8>> {
    match key {
        Some(k) => k.x,
        None => None,
    }
}

/// The view of an optional key.
pub open spec fn opt_key_view(key: Option<CoseKey>) -> Option<CoseKeyView> {
    match key {
        Some(k) => Some(k@),
        None => None,
    }
}

/// The hexadecimal digit for a value below 16.
pub open spec fn hex_digit(n: u8) -> char {
    if n == 0 {
        '0'
    } else if n == 1 {
        '1'
    } else if n == 2 {
        '2'
    } else if n == 3 {
        '3'
    } else if n == 4 {
        '4'
    } else if n == 5 {
        '5'
    } else if n == 6 {
        '6'
    } else if n == 7 {
        '7'
    } else if n == 8 {
        '8'
    } else if n == 9 {
        '9'
    } else if n == 10 {
        'a'
    } else if n == 11 {
        'b'
    } else if n == 12 {
        'c'
    } else if n == 13 {
        'd'
    } else if n == 14 {
        'e'
    } else {
        'f'
    }
}

/// Bytes in hexadecimal, two lower-case digits each.
pub open spec fn hex(b: Seq<u8>) -> Seq<char> {
    Seq::new(2 * b.len(), |i: int| hex_digit(if i % 2 == 0 { b[i / 2] / 16 } else { b[i / 2] % 16 }))
}

fn digit(n: u8) -> (c: char)
    ensures
        c == hex_digit(n),
{
    if n == 0 {
        '0'
    } else if n == 1 {
        '1'
    } else if n == 2 {
        '2'
    } else if n == 3 {
        '3'
    } else if n == 4 {
        '4'
    } else if n == 5 {
        '5'
    } else if n == 6 {
        '6'
    } else if n == 7 {
        '7'
    } else if n == 8 {
        '8'
    } else if n == 9 {
        '9'
    } else if n == 10 {
        'a'
    } else if n == 11 {
        'b'
    } else if n == 12 {
        'c'
    } else if n == 13 {
        'd'
    } else if n == 14 {
        'e'
    } else {
        'f'
    }
}

/// Writes bytes in hexadecimal.
pub fn to_hex(b: &[u8]) -> (s: String)
    ensures
        s@ == hex(b@),
{
    let mut s = String::new();
    let mut i: usize = 0;
    while i < b.len()
        invariant
            i <= b.len(),
            s@ == hex(b@.take(i as int)),
        decreases b.len() - i,
    {
        let ghost before = s@;
        s.push(digit(b[i] / 16));
        s.push(digit(b[i] % 16));
        assert(s@ =~= hex(b@.take(i + 1))) by {
            assert(s@ == before.push(hex_digit(b@[i as int] / 16)).push(
                hex_digit(b@[i as int] % 16),
            ));
            assert(s@.len() == 2 * (i + 1));
            assert forall|j: int| 0 <= j < s@.len() implies s@[j] == hex(b@.take(i + 1))[j] by {
                if j < 2 * i {
                    assert(before[j] == hex(b@.take(i as int))[j]);
                    assert(b@.take(i as int)[j / 2] == b@.take(i + 1)[j / 2]);
                }
            }
        }
        i += 1;
    }
    assert(b@.take(i as int) =~= b@);
    s
}

impl View for Identity {
    type V = IdentityView;

    open spec fn view(&self) -> IdentityView {
        match self {
            Identity::Anonymous => IdentityView::Anonymous,
            Identity::PublicKey(k) => IdentityView::PublicKey(k@),
            Identity::Addressable(h) => IdentityView::Addressable(h@),
        }
    }
}

impl Clone for Identity {
    fn clone(&self) -> (r: Self)
        ensures
            r@ == self@,
    {
        match self {
            Identity::Anonymous => Identity::Anonymous,
            Identity::PublicKey(k) => Identity::PublicKey(slice_to_vec(k.as_slice())),
            Identity::Addressable(h) => Identity::Addressable(slice_to_vec(h.as_slice())),
        }
    }
}

impl PartialEq for Identity {
    fn eq(&self, other: &Identity) -> (r: bool) {
        self.equals(other)
    }
}

impl vstd::std_specs::cmp::PartialEqSpecImpl for Identity {
    open spec fn obeys_eq_spec() -> bool {
        true
    }

    open spec fn eq_spec(&self, other: &Identity) -> bool {
        self@ == other@
    }
}

impl Default for Identity {
    /// The anonymous identity.
    fn default() -> (r: Self)
        ensures
            r@ == IdentityView::Anonymous,
    {
        Identity::Anonymous
    }
}

impl Identity {
    /// See [`IdentityView::wf`].
    pub open spec fn wf(&self) -> bool {
        self@.wf()
    }

    /// The anonymous identity.
    pub fn anonymous() -> (r: Identity)
        ensures
            r@ == IdentityView::Anonymous,
    {
        Identity::Anonymous
    }

    /// The identity of the holder of the public key `key`; none for an
    /// empty key.
    pub fn from_public_key(key: &[u8]) -> (r: Option<Identity>)
        ensures
            r is Some <==> key@.len() > 0,
            r matches Some(id) ==> id@ == IdentityView::PublicKey(key@) && id.wf(),
    {
        if key.len() == 0 {
            None
        } else {
            Some(Identity::PublicKey(slice_to_vec(key)))
        }
    }

    /// The addressable identity of the holder of the public key `key`: its
    /// address is the SHA3-224 digest of the key.
    pub fn from_public_key_hash(key: &[u8]) -> (r: Identity)
        ensures
            r@ == IdentityView::Addressable(sha3_224(key@)),
            r.wf(),
    {
        Identity::Addressable(digest(key))
    }

    /// The identity that uses the raw bytes of `key`; none where the key
    /// has no bytes.
    pub fn public_key(key: &CoseKey) -> (r: Option<Identity>)
        ensures
            r is Some <==> key.x is Some && key.x->0@.len() > 0,
            r matches Some(id) ==> id@ == IdentityView::PublicKey(key.x->0@) && id.wf(),
    {
        match &key.x {
            Some(x) => Identity::from_public_key(x.as_slice()),
            None => None,
        }
    }

    /// The identity that uses the digest of the bytes of `key`; none where
    /// the key has no bytes.
    pub fn addressable(key: &CoseKey) -> (r: Option<Identity>)
        ensures
            r is Some <==> key.x is Some,
            r matches Some(id) ==> id@ == IdentityView::Addressable(sha3_224(key.x->0@)) && id.wf(),
    {
        match &key.x {
            Some(x) => Some(Identity::from_public_key_hash(x.as_slice())),
            None => None,
        }
    }

    /// Whether this is the anonymous identity.
    pub fn is_anonymous(&self) -> (r: bool)
        ensures
            r == (self@ is Anonymous),
    {
        match self {
            Identity::Anonymous => true,
            _ => false,
        }
    }

    /// Whether this is the identity of a public key.
    pub fn is_public_key(&self) -> (r: bool)
        ensures
            r == (self@ is PublicKey),
    {
        match self {
            Identity::PublicKey(_) => true,
            _ => false,
        }
    }

    /// Whether this is the identity of an address.
    pub fn is_addressable(&self) -> (r: bool)
        ensures
            r == (self@ is Addressable),
    {
        match self {
            Identity::Addressable(_) => true,
            _ => false,
        }
    }

    /// Whether the two identities are the same: the same variant over the
    /// same bytes.
    pub fn equals(&self, other: &Identity) -> (r: bool)
        ensures
            r == (self@ == other@),
    {
        match (self, other) {
            (Identity::Anonymous, Identity::Anonymous) => true,
            (Identity::PublicKey(a), Identity::PublicKey(b)) => {
                let r = equal(a.as_slice(), b.as_slice());
                assert(r == (a@ == b@));
                r
            },
            (Identity::Addressable(a), Identity::Addressable(b)) => {
                let r = equal(a.as_slice(), b.as_slice());
                assert(r == (a@ == b@));
                r
            },
            _ => false,
        }
    }

    /// Whether `key` is the key material of this identity.
    pub fn matches_key(&self, key: &Option<CoseKey>) -> (r: bool)
        ensures
            r == self@.matches(opt_key_view(*key)),
    {
        match self {
            Identity::Anonymous => key.is_none(),
            Identity::PublicKey(k) => match key {
                Some(CoseKey { x: Some(x), .. }) => equal(x.as_slice(), k.as_slice()),
                _ => false,
            },
            Identity::Addressable(h) => match key {
                Some(CoseKey { x: Some(x), .. }) => {
                    let d = digest(x.as_slice());
                    equal(d.as_slice(), h.as_slice())
                },
                _ => false,
            },
        }
    }

    /// The tagged bytes of the identity.
    pub fn to_vec(&self) -> (out: Vec<u8>)
        ensures
            out@ == self@.bytes(),
    {
        let mut out: Vec<u8> = Vec::new();
        match self {
            Identity::Anonymous => {
                out.push(TAG_ANONYMOUS);
            },
            Identity::PublicKey(k) => {
                out.push(TAG_PUBLIC_KEY);
                append(&mut out, k.as_slice());
            },
            Identity::Addressable(h) => {
                out.push(TAG_ADDRESSABLE);
                append(&mut out, h.as_slice());
            },
        }
        assert(out@ =~= self@.bytes());
        out
    }

    /// Reads an identity from its tagged bytes.
    pub fn from_bytes(b: &[u8]) -> (r: Result<Identity, IdentityError>)
        ensures
            r is Ok <==> identity_of(b@) is Some,
            r matches Ok(id) ==> Some(id@) == identity_of(b@) && id.wf(),
            r matches Err(e) ==> e == IdentityError::MalformedIdentity,
    {
        if b.len() == 0 {
            return Err(IdentityError::MalformedIdentity);
        }
        let tag = b[0];
        if tag == TAG_ANONYMOUS && b.len() == 1 {
            Ok(Identity::Anonymous)
        } else if tag == TAG_PUBLIC_KEY && b.len() > 1 {
            Ok(Identity::PublicKey(slice_to_vec(vstd::slice::slice_subrange(b, 1, b.len()))))
        } else if tag == TAG_ADDRESSABLE && b.len() == 1 + ADDRESS_LEN {
            Ok(Identity::Addressable(slice_to_vec(vstd::slice::slice_subrange(b, 1, b.len()))))
        } else {
            Err(IdentityError::MalformedIdentity)
        }
    }

    /// The identity as text: its tagged bytes in hexadecimal.
    pub fn to_string(&self) -> (s: String)
        ensures
            s@ == hex(self@.bytes()),
    {
        let b = self.to_vec();
        to_hex(b.as_slice())
    }
}

/// An identity that was written to bytes is read back from them.
pub proof fn lemma_identity_round_trip(id: IdentityView)
    requires
        id.wf(),
    ensures
        identity_of(id.bytes()) == Some(id),
{
    match id {
        IdentityView::Anonymous => {},
        IdentityView::PublicKey(k) => {
            assert(id.bytes().subrange(1, id.bytes().len() as int) =~= k);
        },
        IdentityView::Addressable(h) => {
            assert(id.bytes().subrange(1, id.bytes().len() as int) =~= h);
        },
    }
}

/// Bytes that are read as an identity are the bytes of that identity: no
/// two byte strings stand for the same identity.
pub proof fn lemma_identity_bytes_unique(b: Seq<u8>)
    requires
        identity_of(b) is Some,
    ensures
        identity_of(b)->0.bytes() == b,
        identity_of(b)->0.wf(),
{
    assert(identity_of(b)->0.bytes() =~= b);
}

/// The identity made of a key's bytes matches that key, and no key with
/// other bytes or without bytes, nor the absence of a key. The identity made
/// of the digest of a key's bytes matches that key. The anonymous identity
/// matches the absence of a key and no key.
pub proof fn lemma_key_matches_own_identity(key: CoseKeyView, other: Option<CoseKeyView>)
    requires
        key.x is Some,
    ensures
        IdentityView::PublicKey(key.x->0).matches(Some(key)),
        material_of(other) != Some(key.x->0) ==> !IdentityView::PublicKey(key.x->0).matches(other),
        IdentityView::Addressable(sha3_224(key.x->0)).matches(Some(key)),
        !IdentityView::Addressable(sha3_224(key.x->0)).matches(None),
        IdentityView::Anonymous.matches(None),
        !IdentityView::Anonymous.matches(Some(key)),
{
}

} // verus!
