//! The request: who asks whom for what.

use crate::cbor::{
    array_at, array_head, bytes_at, bytes_item, lemma_array_round_trip, lemma_bytes_round_trip,
    lemma_join8, lemma_text_round_trip, put_array, put_bytes, put_text, read_array_of,
    read_bytes, read_text, text_at, text_item,
};
use crate::identity::{identity_of, lemma_identity_round_trip, Identity, IdentityView};
use crate::message::attributes::{
    attributes_at, attributes_bytes, attributes_fit, attributes_view, lemma_attributes_round_trip,
    put_attributes, read_attributes, Attribute,
};
use crate::message::DecodeError;
use crate::optional::{
    lemma_opt_bytes_round_trip, lemma_opt_uint_round_trip, opt_bytes_at, opt_bytes_item,
    opt_uint_at, opt_uint_item, opt_view, put_opt_bytes, put_opt_uint, read_opt_bytes,
    read_opt_uint,
};
use vstd::prelude::*;
use vstd::utf8::encode_utf8;

verus! {

/// A request.
#[derive(Debug)]
pub struct RequestMessage {
    /// The sender; the anonymous identity where there is none.
    pub from: Option<Identity>,
    /// The recipient.
    pub to: Identity,
    /// The name of the method that is asked for.
    pub method: String,
    /// The argument of the method.
    pub data: Vec<u8>,
    /// The time of the request, in seconds since the epoch.
    pub timestamp: Option<u64>,
    /// Bytes that tell this request from a repetition of it.
    pub nonce: Option<Vec<u8>>,
    pub attributes: Vec<Attribute>,
}

/// A request as a mathematical value.
pub ghost struct RequestView {
    pub from: Option<IdentityView>,
    pub to: IdentityView,
    pub method: Seq<char>,
    pub data: Seq<u8>,
    pub timestamp: Option<u64>,
    pub nonce: Option<Seq<u8>>,
    pub attributes: Seq<(u32, Seq<u8>)>,
}

/// The items of a request as they are read, before the identities are
/// read from their bytes.
pub ghost struct RawRequest {
    pub from: Option<Seq<u8>>,
    pub to: Seq<u8>,
    pub method: Seq<char>,
    pub data: Seq<u8>,
    pub timestamp: Option<u64>,
    pub nonce: Option<Seq<u8>>,
    pub attributes: Seq<(u32, Seq<u8>)>,
}

/// The view of an optional identity.
pub open spec fn opt_identity_view(id: Option<Identity>) -> Option<IdentityView> {
    match id {
        Some(id) => Some(id@),
        None => None,
    }
}

/// The tagged bytes of an optional identity.
pub open spec fn opt_identity_bytes(id: Option<IdentityView>) -> Option<Seq<u8>> {
    match id {
        Some(id) => Some(id.bytes()),
        None => None,
    }
}

impl View for RequestMessage {
    type V = RequestView;

    open spec fn view(&self) -> RequestView {
        RequestView {
            from: opt_identity_view(self.from),
            to: self.to@,
            method: self.method@,
            data: self.data@,
            timestamp: self.timestamp,
            nonce: opt_view(self.nonce),
            attributes: attributes_view(self.attributes@),
        }
    }
}

impl RequestView {
    /// The sender: the anonymous identity where the request names none.
    pub open spec fn sender(self) -> IdentityView {
        match self.from {
            Some(id) => id,
            None => IdentityView::Anonymous,
        }
    }

    /// The request in bytes: an array of its seven items.
    pub open spec fn bytes(self) -> Seq<u8> {
        array_head(7) + opt_bytes_item(opt_identity_bytes(self.from)) + bytes_item(self.to.bytes())
            + text_item(self.method) + bytes_item(self.data) + opt_uint_item(self.timestamp)
            + opt_bytes_item(self.nonce) + attributes_bytes(self.attributes)
    }

    /// The identities are well-formed, and every item is shorter than 2^64
    /// bytes.
    pub open spec fn wf(self) -> bool {
        &&& self.to.wf()
        &&& self.from matches Some(id) ==> id.wf()
        &&& self.to.bytes().len() <= u64::MAX
        &&& self.from matches Some(id) ==> id.bytes().len() <= u64::MAX
        &&& encode_utf8(self.method).len() <= u64::MAX
        &&& self.data.len() <= u64::MAX
        &&& self.nonce matches Some(n) ==> n.len() <= u64::MAX
        &&& self.attributes.len() <= u64::MAX
        &&& attributes_fit(self.attributes)
    }
}

/// The items of the request that bytes stand for, if any. Nothing may
/// follow the request.
pub open spec fn raw_request_of(input: Seq<u8>) -> Option<RawRequest> {
    match array_at(input, 0) {
        Some((Some(n), at0)) => match opt_bytes_at(input, at0) {
            Some((from, at1)) => match bytes_at(input, at1) {
                Some((to, at2)) => match text_at(input, at2) {
                    Some((method, at3)) => match bytes_at(input, at3) {
                        Some((data, at4)) => match opt_uint_at(input, at4) {
                            Some((timestamp, at5)) => match opt_bytes_at(input, at5) {
                                Some((nonce, at6)) => match attributes_at(input, at6) {
                                    Some((attributes, at7)) => if n == 7 && at7 == input.len() {
                                        Some(
                                            RawRequest {
                                                from,
                                                to,
                                                method,
                                                data,
                                                timestamp,
                                                nonce,
                                                attributes,
                                            },
                                        )
                                    } else {
                                        None
                                    },
                                    None => None,
                                },
                                None => None,
                            },
                            None => None,
                        },
                        None => None,
                    },
                    None => None,
                },
                None => None,
            },
            None => None,
        },
        _ => None,
    }
}

/// The request that bytes stand for: malformed where the items cannot be
/// read, else an invalid identity where the bytes of the sender or of the
/// recipient are none.
pub open spec fn request_of(input: Seq<u8>) -> Result<RequestView, DecodeError> {
    match raw_request_of(input) {
        None => Err(DecodeError::Malformed),
        Some(raw) => if (raw.from matches Some(b) && identity_of(b) is None) || identity_of(
            raw.to,
        ) is None {
            Err(DecodeError::InvalidIdentity)
        } else {
            Ok(
                RequestView {
                    from: match raw.from {
                        Some(b) => identity_of(b),
                        None => None,
                    },
                    to: identity_of(raw.to)->0,
                    method: raw.method,
                    data: raw.data,
                    timestamp: raw.timestamp,
                    nonce: raw.nonce,
                    attributes: raw.attributes,
                },
            )
        },
    }
}

impl RequestMessage {
    /// Writes the request to bytes.
    pub fn to_bytes(&self) -> (out: Vec<u8>)
        ensures
            out@ == self@.bytes(),
    {
        let mut out: Vec<u8> = Vec::new();
        put_array(&mut out, 7);
        let from = match &self.from {
            Some(id) => Some(id.to_vec()),
            None => None,
        };
        put_opt_bytes(&mut out, &from);
        let to = self.to.to_vec();
        put_bytes(&mut out, to.as_slice());
        put_text(&mut out, self.method.as_str());
        put_bytes(&mut out, self.data.as_slice());
        put_opt_uint(&mut out, self.timestamp);
        put_opt_bytes(&mut out, &self.nonce);
        put_attributes(&mut out, &self.attributes);
        assert(out@ =~= self@.bytes());
        out
    }

    /// Reads a request from bytes.
    pub fn from_bytes(input: &[u8]) -> (r: Result<RequestMessage, DecodeError>)
        ensures
            r is Ok <==> request_of(input@) is Ok,
            r matches Ok(m) ==> request_of(input@) == Ok::<RequestView, DecodeError>(m@)
                && m.to.wf() && (m.from matches Some(id) ==> id.wf()),
            r matches Err(e) ==> request_of(input@) == Err::<RequestView, DecodeError>(e),
    {
        let (n, at0) = match read_array_of(input, 0) {
            Some(found) => found,
            None => {
                return Err(DecodeError::Malformed);
            },
        };
        let (from, at1) = match read_opt_bytes(input, at0) {
            Some(found) => found,
            None => {
                return Err(DecodeError::Malformed);
            },
        };
        let (to, at2) = match read_bytes(input, at1) {
            Some(found) => found,
            None => {
                return Err(DecodeError::Malformed);
            },
        };
        let (method, at3) = match read_text(input, at2) {
            Some(found) => found,
            None => {
                return Err(DecodeError::Malformed);
            },
        };
        let (data, at4) = match read_bytes(input, at3) {
            Some(found) => found,
            None => {
                return Err(DecodeError::Malformed);
            },
        };
        let (timestamp, at5) = match read_opt_uint(input, at4) {
            Some(found) => found,
            None => {
                return Err(DecodeError::Malformed);
            },
        };
        let (nonce, at6) = match read_opt_bytes(input, at5) {
            Some(found) => found,
            None => {
                return Err(DecodeError::Malformed);
            },
        };
        let (attributes, at7) = match read_attributes(input, at6) {
            Some(found) => found,
            None => {
                return Err(DecodeError::Malformed);
            },
        };
        if n != 7 || at7 != input.len() {
            return Err(DecodeError::Malformed);
        }
        let from = match from {
            Some(b) => match Identity::from_bytes(b.as_slice()) {
                Ok(id) => Some(id),
                Err(_) => {
                    return Err(DecodeError::InvalidIdentity);
                },
            },
            None => None,
        };
        let to = match Identity::from_bytes(to.as_slice()) {
            Ok(id) => id,
            Err(_) => {
                return Err(DecodeError::InvalidIdentity);
            },
        };
        Ok(RequestMessage { from, to, method, data, timestamp, nonce, attributes })
    }
}

proof fn lemma_request_from_items(
    input: Seq<u8>,
    raw: RawRequest,
    at0: int,
    at1: int,
    at2: int,
    at3: int,
    at4: int,
    at5: int,
    at6: int,
)
    requires
        array_at(input, 0) == Some((Some(7u64), at0)),
        opt_bytes_at(input, at0) == Some((raw.from, at1)),
        bytes_at(input, at1) == Some((raw.to, at2)),
        text_at(input, at2) == Some((raw.method, at3)),
        bytes_at(input, at3) == Some((raw.data, at4)),
        opt_uint_at(input, at4) == Some((raw.timestamp, at5)),
        opt_bytes_at(input, at5) == Some((raw.nonce, at6)),
        attributes_at(input, at6) == Some((raw.attributes, input.len() as int)),
    ensures
        raw_request_of(input) == Some(raw),
{
}

/// A request that was written to bytes is read back from them as it was.
pub proof fn lemma_request_round_trip(m: RequestView)
    requires
        m.wf(),
    ensures
        request_of(m.bytes()) == Ok::<RequestView, DecodeError>(m),
{
    let raw = RawRequest {
        from: opt_identity_bytes(m.from),
        to: m.to.bytes(),
        method: m.method,
        data: m.data,
        timestamp: m.timestamp,
        nonce: m.nonce,
        attributes: m.attributes,
    };
    let a = array_head(7);
    let f = opt_bytes_item(raw.from);
    let t = bytes_item(raw.to);
    let c = text_item(raw.method);
    let d = bytes_item(raw.data);
    let s = opt_uint_item(raw.timestamp);
    let n = opt_bytes_item(raw.nonce);
    let x = attributes_bytes(raw.attributes);
    let none = Seq::<u8>::empty();
    assert(m.bytes() == none + (a + f + t + c + d + s + n + x) + none) by {
        assert(m.bytes() =~= none + (a + f + t + c + d + s + n + x) + none);
    }
    lemma_join8(none, a, f, t, c, d, s, n, x, none);
    lemma_array_round_trip(none, 7, f + t + c + d + s + n + x + none);
    lemma_opt_bytes_round_trip(none + a, raw.from, t + c + d + s + n + x + none);
    lemma_bytes_round_trip(none + a + f, raw.to, c + d + s + n + x + none);
    lemma_text_round_trip(none + a + f + t, raw.method, d + s + n + x + none);
    lemma_bytes_round_trip(none + a + f + t + c, raw.data, s + n + x + none);
    lemma_opt_uint_round_trip(none + a + f + t + c + d, raw.timestamp, n + x + none);
    lemma_opt_bytes_round_trip(none + a + f + t + c + d + s, raw.nonce, x + none);
    lemma_attributes_round_trip(none + a + f + t + c + d + s + n, raw.attributes, none);
    lemma_request_from_items(
        m.bytes(),
        raw,
        a.len() as int,
        (a.len() + f.len()) as int,
        (a.len() + f.len() + t.len()) as int,
        (a.len() + f.len() + t.len() + c.len()) as int,
        (a.len() + f.len() + t.len() + c.len() + d.len()) as int,
        (a.len() + f.len() + t.len() + c.len() + d.len() + s.len()) as int,
        (a.len() + f.len() + t.len() + c.len() + d.len() + s.len() + n.len()) as int,
    );
    lemma_identity_round_trip(m.to);
    match m.from {
        Some(id) => {
            lemma_identity_round_trip(id);
        },
        None => {},
    }
}

} // verus!
