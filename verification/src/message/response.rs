//! The response: who answers whom with what.

use crate::cbor::{
    array_at, array_head, bytes_at, bytes_item, lemma_array_round_trip, lemma_bytes_round_trip,
    lemma_join6, put_array, put_bytes, read_array_of, read_bytes,
};
use crate::identity::{identity_of, lemma_identity_round_trip, Identity, IdentityView};
use crate::message::attributes::{
    attributes_at, attributes_bytes, attributes_fit, attributes_view, lemma_attributes_round_trip,
    put_attributes, read_attributes, Attribute,
};
use crate::message::request::{opt_identity_bytes, opt_identity_view};
use crate::message::DecodeError;
use crate::optional::{
    lemma_opt_bytes_round_trip, lemma_opt_uint_round_trip, opt_bytes_at, opt_bytes_item,
    opt_uint_at, opt_uint_item, put_opt_bytes, put_opt_uint, read_opt_bytes, read_opt_uint,
};
use vstd::prelude::*;

verus! {

/// A response.
#[derive(Debug)]
pub struct ResponseMessage {
    /// The sender.
    pub from: Identity,
    /// The recipient; the anonymous identity where there is none.
    pub to: Option<Identity>,
    /// The result.
    pub data: Vec<u8>,
    /// The time of the response, in seconds since the epoch.
    pub timestamp: Option<u64>,
    pub attributes: Vec<Attribute>,
}

/// A response as a mathematical value.
pub ghost struct ResponseView {
    pub from: IdentityView,
    pub to: Option<IdentityView>,
    pub data: Seq<u8>,
    pub timestamp: Option<u64>,
    pub attributes: Seq<(u32, Seq<u8>)>,
}

/// The items of a response as they are read, before the identities are
/// read from their bytes.
pub ghost struct RawResponse {
    pub from: Seq<u8>,
    pub to: Option<Seq<u8>>,
    pub data: Seq<u8>,
    pub timestamp: Option<u64>,
    pub attributes: Seq<(u32, Seq<u8>)>,
}

impl View for ResponseMessage {
    type V = ResponseView;

    open spec fn view(&self) -> ResponseView {
        ResponseView {
            from: self.from@,
            to: opt_identity_view(self.to),
            data: self.data@,
            timestamp: self.timestamp,
            attributes: attributes_view(self.attributes@),
        }
    }
}

impl ResponseView {
    /// The recipient: the anonymous identity where the response names none.
    pub open spec fn recipient(self) -> IdentityView {
        match self.to {
            Some(id) => id,
            None => IdentityView::Anonymous,
        }
    }

    /// The response in bytes: an array of its five items.
    pub open spec fn bytes(self) -> Seq<u8> {
        array_head(5) + bytes_item(self.from.bytes()) + opt_bytes_item(opt_identity_bytes(self.to))
            + bytes_item(self.data) + opt_uint_item(self.timestamp) + attributes_bytes(
            self.attributes,
        )
    }

    /// The identities are well-formed, and every item is shorter than 2^64
    /// bytes.
    pub open spec fn wf(self) -> bool {
        &&& self.from.wf()
        &&& self.to matches Some(id) ==> id.wf()
        &&& self.from.bytes().len() <= u64::MAX
        &&& self.to matches Some(id) ==> id.bytes().len() <= u64::MAX
        &&& self.data.len() <= u64::MAX
        &&& self.attributes.len() <= u64::MAX
        &&& attributes_fit(self.attributes)
    }
}

/// The items of the response that bytes stand for, if any. Nothing may
/// follow the response.
pub open spec fn raw_response_of(input: Seq<u8>) -> Option<RawResponse> {
    match array_at(input, 0) {
        Some((Some(n), at0)) => match bytes_at(input, at0) {
            Some((from, at1)) => match opt_bytes_at(input, at1) {
                Some((to, at2)) => match bytes_at(input, at2) {
                    Some((data, at3)) => match opt_uint_at(input, at3) {
                        Some((timestamp, at4)) => match attributes_at(input, at4) {
                            Some((attributes, at5)) => if n == 5 && at5 == input.len() {
                                Some(RawResponse { from, to, data, timestamp, attributes })
                            } else {
                                None
                            },
                            None => None,
                        },
                        None => None,
                    },
                    None => None,
                },
                None => None,
            },
            None => None,
        },
        _ => None,
    }
}

/// The response that bytes stand for: malformed where the items cannot be
/// read, else an invalid identity where the bytes of the sender or of the
/// recipient are none.
pub open spec fn response_of(input: Seq<u8>) -> Result<ResponseView, DecodeError> {
    match raw_response_of(input) {
        None => Err(DecodeError::Malformed),
        Some(raw) => if (raw.to matches Some(b) && identity_of(b) is None) || identity_of(
            raw.from,
        ) is None {
            Err(DecodeError::InvalidIdentity)
        } else {
            Ok(
                ResponseView {
                    from: identity_of(raw.from)->0,
                    to: match raw.to {
                        Some(b) => identity_of(b),
                        None => None,
                    },
                    data: raw.data,
                    timestamp: raw.timestamp,
                    attributes: raw.attributes,
                },
            )
        },
    }
}

impl ResponseMessage {
    /// Writes the response to bytes.
    pub fn to_bytes(&self) -> (out: Vec<u8>)
        ensures
            out@ == self@.bytes(),
    {
        let mut out: Vec<u8> = Vec::new();
        put_array(&mut out, 5);
        let from = self.from.to_vec();
        put_bytes(&mut out, from.as_slice());
        let to = match &self.to {
            Some(id) => Some(id.to_vec()),
            None => None,
        };
        put_opt_bytes(&mut out, &to);
        put_bytes(&mut out, self.data.as_slice());
        put_opt_uint(&mut out, self.timestamp);
        put_attributes(&mut out, &self.attributes);
        assert(out@ =~= self@.bytes());
        out
    }

    /// Reads a response from bytes.
    pub fn from_bytes(input: &[u8]) -> (r: Result<ResponseMessage, DecodeError>)
        ensures
            r is Ok <==> response_of(input@) is Ok,
            r matches Ok(m) ==> response_of(input@) == Ok::<ResponseView, DecodeError>(m@)
                && m.from.wf() && (m.to matches Some(id) ==> id.wf()),
            r matches Err(e) ==> response_of(input@) == Err::<ResponseView, DecodeError>(e),
    {
        let (n, at0) = match read_array_of(input, 0) {
            Some(found) => found,
            None => {
                return Err(DecodeError::Malformed);
            },
        };
        let (from, at1) = match read_bytes(input, at0) {
            Some(found) => found,
            None => {
                return Err(DecodeError::Malformed);
            },
        };
        let (to, at2) = match read_opt_bytes(input, at1) {
            Some(found) => found,
            None => {
                return Err(DecodeError::Malformed);
            },
        };
        let (data, at3) = match read_bytes(input, at2) {
            Some(found) => found,
            None => {
                return Err(DecodeError::Malformed);
            },
        };
        let (timestamp, at4) = match read_opt_uint(input, at3) {
            Some(found) => found,
            None => {
                return Err(DecodeError::Malformed);
            },
        };
        let (attributes, at5) = match read_attributes(input, at4) {
            Some(found) => found,
            None => {
                return Err(DecodeError::Malformed);
            },
        };
        if n != 5 || at5 != input.len() {
            return Err(DecodeError::Malformed);
        }
        let to = match to {
            Some(b) => match Identity::from_bytes(b.as_slice()) {
                Ok(id) => Some(id),
                Err(_) => {
                    return Err(DecodeError::InvalidIdentity);
                },
            },
            None => None,
        };
        let from = match Identity::from_bytes(from.as_slice()) {
            Ok(id) => id,
            Err(_) => {
                return Err(DecodeError::InvalidIdentity);
            },
        };
        Ok(ResponseMessage { from, to, data, timestamp, attributes })
    }
}

proof fn lemma_response_from_items(
    input: Seq<u8>,
    raw: RawResponse,
    at0: int,
    at1: int,
    at2: int,
    at3: int,
    at4: int,
)
    requires
        array_at(input, 0) == Some((Some(5u64), at0)),
        bytes_at(input, at0) == Some((raw.from, at1)),
        opt_bytes_at(input, at1) == Some((raw.to, at2)),
        bytes_at(input, at2) == Some((raw.data, at3)),
        opt_uint_at(input, at3) == Some((raw.timestamp, at4)),
        attributes_at(input, at4) == Some((raw.attributes, input.len() as int)),
    ensures
        raw_response_of(input) == Some(raw),
{
}

/// A response that was written to bytes is read back from them as it was.
pub proof fn lemma_response_round_trip(m: ResponseView)
    requires
        m.wf(),
    ensures
        response_of(m.bytes()) == Ok::<ResponseView, DecodeError>(m),
{
    let raw = RawResponse {
        from: m.from.bytes(),
        to: opt_identity_bytes(m.to),
        data: m.data,
        timestamp: m.timestamp,
        attributes: m.attributes,
    };
    let a = array_head(5);
    let f = bytes_item(raw.from);
    let t = opt_bytes_item(raw.to);
    let d = bytes_item(raw.data);
    let s = opt_uint_item(raw.timestamp);
    let x = attributes_bytes(raw.attributes);
    let none = Seq::<u8>::empty();
    assert(m.bytes() == none + (a + f + t + d + s + x) + none) by {
        assert(m.bytes() =~= none + (a + f + t + d + s + x) + none);
    }
    lemma_join6(none, a, f, t, d, s, x, none);
    lemma_array_round_trip(none, 5, f + t + d + s + x + none);
    lemma_bytes_round_trip(none + a, raw.from, t + d + s + x + none);
    lemma_opt_bytes_round_trip(none + a + f, raw.to, d + s + x + none);
    lemma_bytes_round_trip(none + a + f + t, raw.data, s + x + none);
    lemma_opt_uint_round_trip(none + a + f + t + d, raw.timestamp, x + none);
    lemma_attributes_round_trip(none + a + f + t + d + s, raw.attributes, none);
    lemma_response_from_items(
        m.bytes(),
        raw,
        a.len() as int,
        (a.len() + f.len()) as int,
        (a.len() + f.len() + t.len()) as int,
        (a.len() + f.len() + t.len() + d.len()) as int,
        (a.len() + f.len() + t.len() + d.len() + s.len()) as int,
    );
    lemma_identity_round_trip(m.from);
    match m.to {
        Some(id) => {
            lemma_identity_round_trip(id);
        },
        None => {},
    }
}

} // verus!
