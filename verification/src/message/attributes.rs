//! The attributes of a message: an open list of numbered extensions, each
//! with a value that this library carries and does not read.

use crate::cbor::{
    bytes_at, bytes_item, lemma_bytes_round_trip, lemma_join2, lemma_join3,
    lemma_map_round_trip, lemma_uint_round_trip, map_at, map_head, put_bytes, put_map, put_uint,
    read_bytes, read_map, read_u32, uint_at, uint_item,
};
use vstd::prelude::*;
use vstd::slice::slice_to_vec;

verus! {

/// One attribute: the number of an extension and its value.
#[derive(Debug)]
pub struct Attribute {
    pub id: u32,
    pub value: Vec<u8>,
}

impl View for Attribute {
    type V = (u32, Seq<u8>);

    open spec fn view(&self) -> (u32, Seq<u8>) {
        (self.id, self.value@)
    }
}

impl Clone for Attribute {
    fn clone(&self) -> (r: Self)
        ensures
            r@ == self@,
    {
        Attribute { id: self.id, value: slice_to_vec(self.value.as_slice()) }
    }
}

/// The attributes of a vector as pairs of number and value.
pub open spec fn attributes_view(v: Seq<Attribute>) -> Seq<(u32, Seq<u8>)> {
    v.map_values(|a: Attribute| a@)
}

/// Attributes in bytes, one behind the other: number, then value.
pub open spec fn attribute_entries(s: Seq<(u32, Seq<u8>)>) -> Seq<u8>
    decreases s.len(),
{
    if s.len() == 0 {
        Seq::empty()
    } else {
        uint_item(s[0].0 as u64) + bytes_item(s[0].1) + attribute_entries(s.drop_first())
    }
}

/// The attributes in bytes: a map from numbers to values, in the order of
/// the list.
pub open spec fn attributes_bytes(s: Seq<(u32, Seq<u8>)>) -> Seq<u8> {
    map_head(s.len() as u64) + attribute_entries(s)
}

/// The `n` attributes that are read from `pos` on, and the position behind
/// them. Every number that fits in 32 bits is accepted.
pub open spec fn attribute_entries_at(input: Seq<u8>, pos: int, n: nat) -> Option<
    (Seq<(u32, Seq<u8>)>, int),
>
    decreases n,
{
    if n == 0 {
        Some((Seq::empty(), pos))
    } else {
        match uint_at(input, pos) {
            Some((id, at1)) => match bytes_at(input, at1) {
                Some((value, at2)) => match attribute_entries_at(input, at2, (n - 1) as nat) {
                    Some((rest, end)) => if id <= u32::MAX {
                        Some((seq![(id as u32, value)] + rest, end))
                    } else {
                        None
                    },
                    None => None,
                },
                None => None,
            },
            None => None,
        }
    }
}

/// The attributes at `pos`, and the position behind them.
pub open spec fn attributes_at(input: Seq<u8>, pos: int) -> Option<(Seq<(u32, Seq<u8>)>, int)> {
    match map_at(input, pos) {
        Some((Some(n), p)) => attribute_entries_at(input, p, n as nat),
        _ => None,
    }
}

/// Appends the attributes.
pub fn put_attributes(out: &mut Vec<u8>, attributes: &Vec<Attribute>)
    ensures
        final(out)@ == old(out)@ + attributes_bytes(attributes_view(attributes@)),
{
    let ghost s = attributes_view(attributes@);
    let n = attributes.len();
    put_map(out, n as u64);
    let ghost start = out@;
    let mut i: usize = 0;
    assert(s.skip(0) =~= s);
    while i < n
        invariant
            i <= n,
            n == attributes.len(),
            s == attributes_view(attributes@),
            start + attribute_entries(s) == out@ + attribute_entries(s.skip(i as int)),
        decreases n - i,
    {
        let ghost before = out@;
        let ghost rest = s.skip(i as int);
        put_uint(out, attributes[i].id as u64);
        put_bytes(out, attributes[i].value.as_slice());
        assert(rest[0] == s[i as int]);
        assert(rest.drop_first() =~= s.skip(i + 1));
        assert(out@ + attribute_entries(s.skip(i + 1)) =~= before + attribute_entries(rest));
        i += 1;
    }
    assert(out@ =~= start + attribute_entries(s));
    assert(out@ =~= old(out)@ + attributes_bytes(s));
}

/// Reads the attributes at `pos`.
pub fn read_attributes(input: &[u8], pos: usize) -> (r: Option<(Vec<Attribute>, usize)>)
    ensures
        r is Some <==> attributes_at(input@, pos as int) is Some,
        r matches Some((a, next)) ==> attributes_at(input@, pos as int) == Some(
            (attributes_view(a@), next as int),
        ),
{
    let (n, start) = match read_map(input, pos) {
        Some((Some(n), p)) => (n, p),
        _ => {
            return None;
        },
    };
    let mut attributes: Vec<Attribute> = Vec::new();
    let mut at: usize = start;
    let mut i: u64 = 0;
    assert(attributes_view(attributes@) =~= Seq::<(u32, Seq<u8>)>::empty());
    while i < n
        invariant
            i <= n,
            map_at(input@, pos as int) == Some((Some(n), start as int)),
            attribute_entries_at(input@, start as int, n as nat) == (match attribute_entries_at(
                input@,
                at as int,
                (n - i) as nat,
            ) {
                Some((rest, end)) => Some((attributes_view(attributes@) + rest, end)),
                None => None,
            }),
        decreases n - i,
    {
        let (id, at1) = match read_u32(input, at) {
            Some(found) => found,
            None => {
                return None;
            },
        };
        let (value, at2) = match read_bytes(input, at1) {
            Some(found) => found,
            None => {
                return None;
            },
        };
        let ghost before = attributes_view(attributes@);
        let attribute = Attribute { id, value };
        proof {
            match attribute_entries_at(input@, at2 as int, (n - i - 1) as nat) {
                Some((rest, end)) => {
                    assert(before + (seq![attribute@] + rest) =~= before.push(attribute@) + rest);
                },
                None => {},
            }
        }
        attributes.push(attribute);
        assert(attributes_view(attributes@) =~= before.push(attribute@));
        at = at2;
        i += 1;
    }
    assert(attributes_view(attributes@) + Seq::<(u32, Seq<u8>)>::empty() =~= attributes_view(
        attributes@,
    ));
    Some((attributes, at))
}

/// Whether the value of an attribute is shorter than 2^64 bytes.
pub open spec fn attribute_fits(a: (u32, Seq<u8>)) -> bool {
    a.1.len() <= u64::MAX
}

/// Whether every attribute of `s` fits.
pub open spec fn attributes_fit(s: Seq<(u32, Seq<u8>)>) -> bool {
    forall|i: int| 0 <= i < s.len() ==> attribute_fits(#[trigger] s[i])
}

proof fn lemma_attributes_fit_tail(s: Seq<(u32, Seq<u8>)>)
    requires
        attributes_fit(s),
        s.len() > 0,
    ensures
        attributes_fit(s.drop_first()),
        attribute_fits(s[0]),
{
    let tail = s.drop_first();
    assert forall|i: int| 0 <= i < tail.len() implies attribute_fits(#[trigger] tail[i]) by {
        assert(tail[i] == s[i + 1]);
    }
}

proof fn lemma_attribute_entries_step(
    input: Seq<u8>,
    s: Seq<(u32, Seq<u8>)>,
    at0: int,
    at1: int,
    at2: int,
    end: int,
)
    requires
        s.len() > 0,
        uint_at(input, at0) == Some((s[0].0 as u64, at1)),
        bytes_at(input, at1) == Some((s[0].1, at2)),
        attribute_entries_at(input, at2, (s.len() - 1) as nat) == Some((s.drop_first(), end)),
    ensures
        attribute_entries_at(input, at0, s.len()) == Some((s, end)),
{
    assert(seq![(s[0].0, s[0].1)] + s.drop_first() =~= s);
}

proof fn lemma_attribute_entries_round_trip(pre: Seq<u8>, s: Seq<(u32, Seq<u8>)>, post: Seq<u8>)
    requires
        attributes_fit(s),
    ensures
        attribute_entries_at(pre + attribute_entries(s) + post, pre.len() as int, s.len())
            == Some((s, (pre.len() + attribute_entries(s).len()) as int)),
    decreases s.len(),
{
    if s.len() == 0 {
        assert(s =~= Seq::<(u32, Seq<u8>)>::empty());
        assert(attribute_entries(s).len() == 0);
    } else {
        let k = uint_item(s[0].0 as u64);
        let v = bytes_item(s[0].1);
        let tail = s.drop_first();
        let rest = attribute_entries(tail);
        lemma_attributes_fit_tail(s);
        lemma_join3(pre, k, v, rest, post);
        lemma_uint_round_trip(pre, s[0].0 as u64, v + rest + post);
        lemma_bytes_round_trip(pre + k, s[0].1, rest + post);
        lemma_attribute_entries_round_trip(pre + k + v, tail, post);
        lemma_attribute_entries_step(
            pre + attribute_entries(s) + post,
            s,
            pre.len() as int,
            (pre.len() + k.len()) as int,
            (pre.len() + k.len() + v.len()) as int,
            (pre.len() + k.len() + v.len() + rest.len()) as int,
        );
    }
}

/// Attributes that were written are read back, wherever they stand.
pub proof fn lemma_attributes_round_trip(pre: Seq<u8>, s: Seq<(u32, Seq<u8>)>, post: Seq<u8>)
    requires
        attributes_fit(s),
        s.len() <= u64::MAX,
    ensures
        attributes_at(pre + attributes_bytes(s) + post, pre.len() as int) == Some(
            (s, (pre.len() + attributes_bytes(s).len()) as int),
        ),
{
    let h = map_head(s.len() as u64);
    let e = attribute_entries(s);
    lemma_join2(pre, h, e, post);
    lemma_map_round_trip(pre, s.len() as u64, e + post);
    lemma_attribute_entries_round_trip(pre + h, s, post);
}

} // verus!
