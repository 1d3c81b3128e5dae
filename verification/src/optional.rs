//! Items that may be absent. An absent item is written as an empty array,
//! a present one as an array of that one item, so that no value of the
//! item stands for its absence.

use crate::cbor::{
    array_at, array_head, bytes_at, bytes_item, lemma_array_round_trip, lemma_bytes_round_trip,
    lemma_text_round_trip, lemma_uint_round_trip, put_array, put_bytes, put_text, put_uint,
    read_array_of, read_bytes, read_text, read_uint, text_at, text_item, uint_at, uint_item,
};
use vstd::prelude::*;
use vstd::utf8::encode_utf8;

verus! {

/// An optional byte string in bytes.
pub open spec fn opt_bytes_item(b: Option<Seq<u8>>) -> Seq<u8> {
    match b {
        Some(b) => array_head(1) + bytes_item(b),
        None => array_head(0),
    }
}

/// An optional unsigned integer in bytes.
pub open spec fn opt_uint_item(v: Option<u64>) -> Seq<u8> {
    match v {
        Some(v) => array_head(1) + uint_item(v),
        None => array_head(0),
    }
}

/// An optional text in bytes.
pub open spec fn opt_text_item(s: Option<Seq<char>>) -> Seq<u8> {
    match s {
        Some(s) => array_head(1) + text_item(s),
        None => array_head(0),
    }
}

/// The optional byte string at `pos`, and the position behind it.
pub open spec fn opt_bytes_at(input: Seq<u8>, pos: int) -> Option<(Option<Seq<u8>>, int)> {
    match array_at(input, pos) {
        Some((Some(n), p)) => if n == 0 {
            Some((None, p))
        } else if n == 1 {
            match bytes_at(input, p) {
                Some((b, next)) => Some((Some(b), next)),
                None => None,
            }
        } else {
            None
        },
        _ => None,
    }
}

/// The optional unsigned integer at `pos`, and the position behind it.
pub open spec fn opt_uint_at(input: Seq<u8>, pos: int) -> Option<(Option<u64>, int)> {
    match array_at(input, pos) {
        Some((Some(n), p)) => if n == 0 {
            Some((None, p))
        } else if n == 1 {
            match uint_at(input, p) {
                Some((v, next)) => Some((Some(v), next)),
                None => None,
            }
        } else {
            None
        },
        _ => None,
    }
}

/// The optional text at `pos`, and the position behind it.
pub open spec fn opt_text_at(input: Seq<u8>, pos: int) -> Option<(Option<Seq<char>>, int)> {
    match array_at(input, pos) {
        Some((Some(n), p)) => if n == 0 {
            Some((None, p))
        } else if n == 1 {
            match text_at(input, p) {
                Some((s, next)) => Some((Some(s), next)),
                None => None,
            }
        } else {
            None
        },
        _ => None,
    }
}

/// The bytes of an optional vector.
pub open spec fn opt_view(b: Option<Vec<u8>>) -> Option<Seq<u8>> {
    match b {
        Some(b) => Some(b@),
        None => None,
    }
}

/// The characters of an optional text.
pub open spec fn opt_text_view(s: Option<String>) -> Option<Seq<char>> {
    match s {
        Some(s) => Some(s@),
        None => None,
    }
}

/// Appends an optional byte string.
pub fn put_opt_bytes(out: &mut Vec<u8>, b: &Option<Vec<u8>>)
    ensures
        final(out)@ == old(out)@ + opt_bytes_item(opt_view(*b)),
{
    match b {
        Some(b) => {
            put_array(out, 1);
            put_bytes(out, b.as_slice());
            assert(out@ =~= old(out)@ + (array_head(1) + bytes_item(b@)));
        },
        None => {
            put_array(out, 0);
        },
    }
}

/// Appends an optional unsigned integer.
pub fn put_opt_uint(out: &mut Vec<u8>, v: Option<u64>)
    ensures
        final(out)@ == old(out)@ + opt_uint_item(v),
{
    match v {
        Some(v) => {
            put_array(out, 1);
            put_uint(out, v);
            assert(out@ =~= old(out)@ + (array_head(1) + uint_item(v)));
        },
        None => {
            put_array(out, 0);
        },
    }
}

/// Appends an optional text.
pub fn put_opt_text(out: &mut Vec<u8>, s: &Option<String>)
    ensures
        final(out)@ == old(out)@ + opt_text_item(opt_text_view(*s)),
{
    match s {
        Some(s) => {
            put_array(out, 1);
            put_text(out, s.as_str());
            assert(out@ =~= old(out)@ + (array_head(1) + text_item(s@)));
        },
        None => {
            put_array(out, 0);
        },
    }
}

/// Reads the optional byte string at `pos`.
pub fn read_opt_bytes(input: &[u8], pos: usize) -> (r: Option<(Option<Vec<u8>>, usize)>)
    ensures
        r is Some <==> opt_bytes_at(input@, pos as int) is Some,
        r matches Some((b, next)) ==> opt_bytes_at(input@, pos as int) == Some(
            (opt_view(b), next as int),
        ),
{
    match read_array_of(input, pos) {
        Some((n, p)) => {
            if n == 0 {
                Some((None, p))
            } else if n == 1 {
                match read_bytes(input, p) {
                    Some((b, next)) => Some((Some(b), next)),
                    None => None,
                }
            } else {
                None
            }
        },
        None => None,
    }
}

/// Reads the optional unsigned integer at `pos`.
pub fn read_opt_uint(input: &[u8], pos: usize) -> (r: Option<(Option<u64>, usize)>)
    ensures
        r is Some <==> opt_uint_at(input@, pos as int) is Some,
        r matches Some((v, next)) ==> opt_uint_at(input@, pos as int) == Some((v, next as int)),
{
    match read_array_of(input, pos) {
        Some((n, p)) => {
            if n == 0 {
                Some((None, p))
            } else if n == 1 {
                match read_uint(input, p) {
                    Some((v, next)) => Some((Some(v), next)),
                    None => None,
                }
            } else {
                None
            }
        },
        None => None,
    }
}

/// Reads the optional text at `pos`.
pub fn read_opt_text(input: &[u8], pos: usize) -> (r: Option<(Option<String>, usize)>)
    ensures
        r is Some <==> opt_text_at(input@, pos as int) is Some,
        r matches Some((s, next)) ==> opt_text_at(input@, pos as int) == Some(
            (opt_text_view(s), next as int),
        ),
{
    match read_array_of(input, pos) {
        Some((n, p)) => {
            if n == 0 {
                Some((None, p))
            } else if n == 1 {
                match read_text(input, p) {
                    Some((s, next)) => Some((Some(s), next)),
                    None => None,
                }
            } else {
                None
            }
        },
        None => None,
    }
}

/// An optional byte string that was written is read back.
pub proof fn lemma_opt_bytes_round_trip(pre: Seq<u8>, b: Option<Seq<u8>>, post: Seq<u8>)
    requires
        b matches Some(x) ==> x.len() <= u64::MAX,
    ensures
        opt_bytes_at(pre + opt_bytes_item(b) + post, pre.len() as int) == Some(
            (b, (pre.len() + opt_bytes_item(b).len()) as int),
        ),
{
    let input = pre + opt_bytes_item(b) + post;
    match b {
        Some(x) => {
            assert(input == pre + array_head(1) + (bytes_item(x) + post)) by {
                assert(input =~= pre + array_head(1) + (bytes_item(x) + post));
            }
            lemma_array_round_trip(pre, 1, bytes_item(x) + post);
            assert(input == (pre + array_head(1)) + bytes_item(x) + post) by {
                assert(input =~= (pre + array_head(1)) + bytes_item(x) + post);
            }
            lemma_bytes_round_trip(pre + array_head(1), x, post);
        },
        None => {
            lemma_array_round_trip(pre, 0, post);
        },
    }
}

/// An optional unsigned integer that was written is read back.
pub proof fn lemma_opt_uint_round_trip(pre: Seq<u8>, v: Option<u64>, post: Seq<u8>)
    ensures
        opt_uint_at(pre + opt_uint_item(v) + post, pre.len() as int) == Some(
            (v, (pre.len() + opt_uint_item(v).len()) as int),
        ),
{
    let input = pre + opt_uint_item(v) + post;
    match v {
        Some(x) => {
            assert(input == pre + array_head(1) + (uint_item(x) + post)) by {
                assert(input =~= pre + array_head(1) + (uint_item(x) + post));
            }
            lemma_array_round_trip(pre, 1, uint_item(x) + post);
            assert(input == (pre + array_head(1)) + uint_item(x) + post) by {
                assert(input =~= (pre + array_head(1)) + uint_item(x) + post);
            }
            lemma_uint_round_trip(pre + array_head(1), x, post);
        },
        None => {
            lemma_array_round_trip(pre, 0, post);
        },
    }
}

/// An optional text that was written is read back.
pub proof fn lemma_opt_text_round_trip(pre: Seq<u8>, s: Option<Seq<char>>, post: Seq<u8>)
    requires
        s matches Some(x) ==> encode_utf8(x).len() <= u64::MAX,
    ensures
        opt_text_at(pre + opt_text_item(s) + post, pre.len() as int) == Some(
            (s, (pre.len() + opt_text_item(s).len()) as int),
        ),
{
    let input = pre + opt_text_item(s) + post;
    match s {
        Some(x) => {
            assert(input == pre + array_head(1) + (text_item(x) + post)) by {
                assert(input =~= pre + array_head(1) + (text_item(x) + post));
            }
            lemma_array_round_trip(pre, 1, text_item(x) + post);
            assert(input == (pre + array_head(1)) + text_item(x) + post) by {
                assert(input =~= (pre + array_head(1)) + text_item(x) + post);
            }
            lemma_text_round_trip(pre + array_head(1), x, post);
        },
        None => {
            lemma_array_round_trip(pre, 0, post);
        },
    }
}

} // verus!
