//! The CBOR data items that the codecs of this library are made of.
//!
//! The first part says, as spec functions on bytes, how an item is written
//! and how it is read back. The second holds the calls into `minicbor` that
//! write and read the items; their contracts are believed, not proved. The
//! last part proves that what was written is read back.

use vstd::prelude::*;
use vstd::utf8::*;

verus! {

/// The major type of an unsigned integer.
pub const MAJOR_UINT: u8 = 0;

/// The major type of a byte string.
pub const MAJOR_BYTES: u8 = 2;

/// The major type of a text string.
pub const MAJOR_TEXT: u8 = 3;

/// The major type of an array.
pub const MAJOR_ARRAY: u8 = 4;

/// The major type of a map.
pub const MAJOR_MAP: u8 = 5;

/// The initial byte of an item: the major type in the upper three bits, the
/// additional information in the lower five.
pub open spec fn initial_byte(major: u8, info: u8) -> u8 {
    (major * 32 + info) as u8
}

/// The number `x` in `n` bytes, most significant byte first.
pub open spec fn be_bytes(x: nat, n: nat) -> Seq<u8>
    decreases n,
{
    if n == 0 {
        Seq::empty()
    } else {
        be_bytes(x / 256, (n - 1) as nat).push((x % 256) as u8)
    }
}

/// Whether `x` can be written in `n` bytes.
pub open spec fn fits_in(x: nat, n: nat) -> bool
    decreases n,
{
    if n == 0 {
        x == 0
    } else {
        fits_in(x / 256, (n - 1) as nat)
    }
}

/// The additional information of the shortest head that carries `arg`:
/// `arg` itself below 24, else 24 to 27 for one, two, four or eight bytes
/// that follow.
pub open spec fn info_for(arg: u64) -> u8 {
    if arg < 24 {
        arg as u8
    } else if arg < 0x100 {
        24
    } else if arg < 0x1_0000 {
        25
    } else if arg < 0x1_0000_0000 {
        26
    } else {
        27
    }
}

/// The number of bytes that follow the initial byte for the additional
/// information `info`.
pub open spec fn following(info: u8) -> nat {
    if info < 24 {
        0
    } else if info == 24 {
        1
    } else if info == 25 {
        2
    } else if info == 26 {
        4
    } else {
        8
    }
}

/// The head of an item with the given major type and argument, in the
/// shortest of the five forms.
#[verifier::opaque]
pub open spec fn head(major: u8, arg: u64) -> Seq<u8> {
    seq![initial_byte(major, info_for(arg))] + be_bytes(arg as nat, following(info_for(arg)))
}

/// An unsigned integer as an item.
pub open spec fn uint_item(v: u64) -> Seq<u8> {
    head(MAJOR_UINT, v)
}

/// A byte string as an item: its length, then the bytes.
pub open spec fn bytes_item(b: Seq<u8>) -> Seq<u8> {
    head(MAJOR_BYTES, b.len() as u64) + b
}

/// A text string as an item: the length of its UTF-8 form, then that form.
pub open spec fn text_item(s: Seq<char>) -> Seq<u8> {
    head(MAJOR_TEXT, encode_utf8(s).len() as u64) + encode_utf8(s)
}

/// The head that opens an array of `n` items.
pub open spec fn array_head(n: u64) -> Seq<u8> {
    head(MAJOR_ARRAY, n)
}

/// The head that opens a map of `n` entries.
pub open spec fn map_head(n: u64) -> Seq<u8> {
    head(MAJOR_MAP, n)
}

/// The unsigned number that the `n` bytes from `pos` on spell, most
/// significant byte first.
pub open spec fn be_value(input: Seq<u8>, pos: int, n: nat) -> int
    decreases n,
{
    if n == 0 {
        0
    } else {
        be_value(input, pos, (n - 1) as nat) * 256 + input[pos + n - 1]
    }
}

/// The argument of a head whose additional information is `info` and whose
/// following bytes start at `pos`, with the position behind it. `None` where
/// the input ends too early or `info` is none of the five definite forms.
pub open spec fn arg_at(input: Seq<u8>, pos: int, info: u8) -> Option<(u64, int)> {
    if info < 24 {
        Some((info as u64, pos))
    } else if info > 27 || pos + following(info) > input.len() {
        None
    } else {
        Some((be_value(input, pos, following(info)) as u64, pos + following(info)))
    }
}

/// The definite head at `pos`: major type, argument, position behind it.
#[verifier::opaque]
pub open spec fn head_at(input: Seq<u8>, pos: int) -> Option<(u8, u64, int)> {
    if 0 <= pos < input.len() {
        match arg_at(input, pos + 1, input[pos] % 32) {
            Some((arg, next)) => Some((input[pos] / 32, arg, next)),
            None => None,
        }
    } else {
        None
    }
}

/// The unsigned integer at `pos`, in any of its widths, and the position
/// behind it.
pub open spec fn uint_at(input: Seq<u8>, pos: int) -> Option<(u64, int)> {
    match head_at(input, pos) {
        Some((major, arg, next)) if major == MAJOR_UINT => Some((arg, next)),
        _ => None,
    }
}

/// The byte string of definite length at `pos`, and the position behind it.
pub open spec fn bytes_at(input: Seq<u8>, pos: int) -> Option<(Seq<u8>, int)> {
    match head_at(input, pos) {
        Some((major, arg, next)) if major == MAJOR_BYTES && next + arg <= input.len() => Some(
            (input.subrange(next, next + arg), next + arg),
        ),
        _ => None,
    }
}

/// The text string of definite length at `pos`, and the position behind it.
/// Bytes that are no UTF-8 are no text.
pub open spec fn text_at(input: Seq<u8>, pos: int) -> Option<(Seq<char>, int)> {
    match head_at(input, pos) {
        Some((major, arg, next)) if major == MAJOR_TEXT && next + arg <= input.len()
            && valid_utf8(input.subrange(next, next + arg)) => Some(
            (decode_utf8(input.subrange(next, next + arg)), next + arg),
        ),
        _ => None,
    }
}

/// The head of major type `major` at `pos` that opens an array or a map: the
/// number of items or entries (`None` for one of indefinite length) and the
/// position behind the head.
#[verifier::opaque]
pub open spec fn open_at(input: Seq<u8>, pos: int, major: u8) -> Option<(Option<u64>, int)> {
    if 0 <= pos < input.len() && input[pos] / 32 == major {
        if input[pos] % 32 == 31 {
            Some((None, pos + 1))
        } else {
            match arg_at(input, pos + 1, input[pos] % 32) {
                Some((arg, next)) => Some((Some(arg), next)),
                None => None,
            }
        }
    } else {
        None
    }
}

/// The array head at `pos`.
pub open spec fn array_at(input: Seq<u8>, pos: int) -> Option<(Option<u64>, int)> {
    open_at(input, pos, MAJOR_ARRAY)
}

/// The map head at `pos`.
pub open spec fn map_at(input: Seq<u8>, pos: int) -> Option<(Option<u64>, int)> {
    open_at(input, pos, MAJOR_MAP)
}

/// Whether a map of definite length starts at `pos`.
pub open spec fn definite_map_at(input: Seq<u8>, pos: int) -> bool {
    0 <= pos < input.len() && 0xa0 <= input[pos] <= 0xbb
}

/// The error that `minicbor` reports when it cannot read an item.
#[verifier::external_type_specification]
#[verifier::external_body]
pub struct ExDecodeError(minicbor::decode::Error);

/// `minicbor::Encoder::u64`: appends the unsigned integer `v` in its shortest
/// form.
#[verifier::external_body]
pub(crate) fn put_uint(out: &mut Vec<u8>, v: u64)
    ensures
        final(out)@ == old(out)@ + uint_item(v),
{
    let _ = minicbor::Encoder::new(out).u64(v);
}

/// `minicbor::Encoder::bytes`: appends the length of `b` as a byte-string
/// head, then `b`.
#[verifier::external_body]
pub(crate) fn put_bytes(out: &mut Vec<u8>, b: &[u8])
    ensures
        final(out)@ == old(out)@ + bytes_item(b@),
{
    let _ = minicbor::Encoder::new(out).bytes(b);
}

/// `minicbor::Encoder::str`: appends the length of the UTF-8 form of `s` as a
/// text-string head, then that form.
#[verifier::external_body]
pub(crate) fn put_text(out: &mut Vec<u8>, s: &str)
    ensures
        final(out)@ == old(out)@ + text_item(s@),
{
    let _ = minicbor::Encoder::new(out).str(s);
}

/// `minicbor::Encoder::array`: appends the head of an array of `n` items.
#[verifier::external_body]
pub(crate) fn put_array(out: &mut Vec<u8>, n: u64)
    ensures
        final(out)@ == old(out)@ + array_head(n),
{
    let _ = minicbor::Encoder::new(out).array(n);
}

/// `minicbor::Encoder::map`: appends the head of a map of `n` entries.
#[verifier::external_body]
pub(crate) fn put_map(out: &mut Vec<u8>, n: u64)
    ensures
        final(out)@ == old(out)@ + map_head(n),
{
    let _ = minicbor::Encoder::new(out).map(n);
}

/// `minicbor::Decoder::u64` at `pos`: the unsigned integer there and the
/// position behind it; an error where none is there.
#[verifier::external_body]
pub(crate) fn get_uint(input: &[u8], pos: usize) -> (r: Result<
    (u64, usize),
    minicbor::decode::Error,
>)
    ensures
        r is Ok <==> uint_at(input@, pos as int) is Some,
        r matches Ok((v, next)) ==> uint_at(input@, pos as int) == Some((v, next as int)),
{
    let mut d = minicbor::Decoder::new(input);
    d.set_position(pos);
    let v = d.u64()?;
    Ok((v, d.position()))
}

/// `minicbor::Decoder::bytes` at `pos`: the byte string of definite length
/// there and the position behind it; an error where none is there.
#[verifier::external_body]
pub(crate) fn get_bytes(input: &[u8], pos: usize) -> (r: Result<
    (Vec<u8>, usize),
    minicbor::decode::Error,
>)
    ensures
        r is Ok <==> bytes_at(input@, pos as int) is Some,
        r matches Ok((b, next)) ==> bytes_at(input@, pos as int) == Some((b@, next as int)),
{
    let mut d = minicbor::Decoder::new(input);
    d.set_position(pos);
    let b = d.bytes()?.to_vec();
    Ok((b, d.position()))
}

/// `minicbor::Decoder::str` at `pos`: the text string of definite length
/// there and the position behind it; an error where none is there or its
/// bytes are no UTF-8.
#[verifier::external_body]
pub(crate) fn get_text(input: &[u8], pos: usize) -> (r: Result<
    (String, usize),
    minicbor::decode::Error,
>)
    ensures
        r is Ok <==> text_at(input@, pos as int) is Some,
        r matches Ok((s, next)) ==> text_at(input@, pos as int) == Some((s@, next as int)),
{
    let mut d = minicbor::Decoder::new(input);
    d.set_position(pos);
    let s = d.str()?.to_owned();
    Ok((s, d.position()))
}

/// `minicbor::Decoder::array` at `pos`: the number of items that the array
/// head there announces (`None` for an array of indefinite length) and the
/// position behind the head; an error where no array starts.
#[verifier::external_body]
pub(crate) fn get_array(input: &[u8], pos: usize) -> (r: Result<
    (Option<u64>, usize),
    minicbor::decode::Error,
>)
    ensures
        r is Ok <==> array_at(input@, pos as int) is Some,
        r matches Ok((n, next)) ==> array_at(input@, pos as int) == Some((n, next as int)),
{
    let mut d = minicbor::Decoder::new(input);
    d.set_position(pos);
    let n = d.array()?;
    Ok((n, d.position()))
}

/// `minicbor::Decoder::map` at `pos`: the number of entries that the map head
/// there announces (`None` for a map of indefinite length) and the position
/// behind the head; an error where no map starts.
#[verifier::external_body]
pub(crate) fn get_map(input: &[u8], pos: usize) -> (r: Result<
    (Option<u64>, usize),
    minicbor::decode::Error,
>)
    ensures
        r is Ok <==> map_at(input@, pos as int) is Some,
        r matches Ok((n, next)) ==> map_at(input@, pos as int) == Some((n, next as int)),
{
    let mut d = minicbor::Decoder::new(input);
    d.set_position(pos);
    let n = d.map()?;
    Ok((n, d.position()))
}

/// `minicbor::Decoder::datatype` at `pos`: whether it reports
/// `Type::Map`, which it does for the initial bytes of a map of definite
/// length and for no other.
#[verifier::external_body]
pub(crate) fn is_map(input: &[u8], pos: usize) -> (r: bool)
    ensures
        r == definite_map_at(input@, pos as int),
{
    let mut d = minicbor::Decoder::new(input);
    d.set_position(pos);
    matches!(d.datatype(), Ok(minicbor::data::Type::Map))
}

/// Reads the unsigned integer at `pos`.
pub fn read_uint(input: &[u8], pos: usize) -> (r: Option<(u64, usize)>)
    ensures
        r is Some <==> uint_at(input@, pos as int) is Some,
        r matches Some((v, next)) ==> uint_at(input@, pos as int) == Some((v, next as int)),
{
    match get_uint(input, pos) {
        Ok(found) => Some(found),
        Err(_) => None,
    }
}

/// Reads the unsigned integer at `pos` that fits in 32 bits.
pub fn read_u32(input: &[u8], pos: usize) -> (r: Option<(u32, usize)>)
    ensures
        r is Some <==> (uint_at(input@, pos as int) matches Some((v, _)) && v <= u32::MAX),
        r matches Some((v, next)) ==> uint_at(input@, pos as int) == Some((v as u64, next as int)),
{
    match get_uint(input, pos) {
        Ok((v, next)) => if v <= 0xffff_ffff {
            Some((v as u32, next))
        } else {
            None
        },
        Err(_) => None,
    }
}

/// Reads the byte string at `pos`.
pub fn read_bytes(input: &[u8], pos: usize) -> (r: Option<(Vec<u8>, usize)>)
    ensures
        r is Some <==> bytes_at(input@, pos as int) is Some,
        r matches Some((b, next)) ==> bytes_at(input@, pos as int) == Some((b@, next as int)),
{
    match get_bytes(input, pos) {
        Ok(found) => Some(found),
        Err(_) => None,
    }
}

/// Reads the text string at `pos`.
pub fn read_text(input: &[u8], pos: usize) -> (r: Option<(String, usize)>)
    ensures
        r is Some <==> text_at(input@, pos as int) is Some,
        r matches Some((s, next)) ==> text_at(input@, pos as int) == Some((s@, next as int)),
{
    match get_text(input, pos) {
        Ok(found) => Some(found),
        Err(_) => None,
    }
}

/// Reads the array head at `pos`.
pub fn read_array(input: &[u8], pos: usize) -> (r: Option<(Option<u64>, usize)>)
    ensures
        r is Some <==> array_at(input@, pos as int) is Some,
        r matches Some((n, next)) ==> array_at(input@, pos as int) == Some((n, next as int)),
{
    match get_array(input, pos) {
        Ok(found) => Some(found),
        Err(_) => None,
    }
}

/// Reads the map head at `pos`.
pub fn read_map(input: &[u8], pos: usize) -> (r: Option<(Option<u64>, usize)>)
    ensures
        r is Some <==> map_at(input@, pos as int) is Some,
        r matches Some((n, next)) ==> map_at(input@, pos as int) == Some((n, next as int)),
{
    match get_map(input, pos) {
        Ok(found) => Some(found),
        Err(_) => None,
    }
}

/// Reads the head of an array of definite length at `pos`: the number of
/// its items and the position behind the head.
pub fn read_array_of(input: &[u8], pos: usize) -> (r: Option<(u64, usize)>)
    ensures
        r is Some <==> (array_at(input@, pos as int) matches Some((Some(_), _))),
        r matches Some((n, next)) ==> array_at(input@, pos as int) == Some((Some(n), next as int)),
{
    match get_array(input, pos) {
        Ok((Some(n), next)) => Some((n, next)),
        _ => None,
    }
}

/// Bytes joined in another grouping are the same bytes.
pub proof fn lemma_regroup(l: Seq<u8>, m: Seq<u8>, r: Seq<u8>)
    ensures
        (l + m) + r == l + (m + r),
{
    assert((l + m) + r =~= l + (m + r));
}

/// Where each of two joined byte strings stands between `pre` and `post`.
pub proof fn lemma_join2(pre: Seq<u8>, a: Seq<u8>, b: Seq<u8>, post: Seq<u8>)
    ensures
        pre + (a + b) + post == pre + a + (b + post),
        pre + (a + b) + post == (pre + a) + b + post,
        (a + b).len() == a.len() + b.len(),
{
    let whole = pre + (a + b) + post;
    assert(whole =~= pre + a + (b + post));
    assert(whole =~= (pre + a) + b + post);
}

/// Where each of three joined byte strings stands between `pre` and `post`.
pub proof fn lemma_join3(pre: Seq<u8>, a: Seq<u8>, b: Seq<u8>, c: Seq<u8>, post: Seq<u8>)
    ensures
        pre + (a + b + c) + post == pre + a + (b + c + post),
        pre + (a + b + c) + post == (pre + a) + b + (c + post),
        pre + (a + b + c) + post == (pre + a + b) + c + post,
        (a + b + c).len() == a.len() + b.len() + c.len(),
{
    lemma_join2(pre, a, b, c + post);
    let whole = pre + (a + b + c) + post;
    assert(whole =~= pre + (a + b) + (c + post));
    assert(whole =~= (pre + a + b) + c + post);
}

/// Where each of four joined byte strings stands between `pre` and `post`.
pub proof fn lemma_join4(
    pre: Seq<u8>,
    a: Seq<u8>,
    b: Seq<u8>,
    c: Seq<u8>,
    d: Seq<u8>,
    post: Seq<u8>,
)
    ensures
        pre + (a + b + c + d) + post == pre + a + (b + c + d + post),
        pre + (a + b + c + d) + post == (pre + a) + b + (c + d + post),
        pre + (a + b + c + d) + post == (pre + a + b) + c + (d + post),
        pre + (a + b + c + d) + post == (pre + a + b + c) + d + post,
        (a + b + c + d).len() == a.len() + b.len() + c.len() + d.len(),
{
    lemma_join3(pre, a, b, c, d + post);
    let whole = pre + (a + b + c + d) + post;
    assert(whole =~= pre + (a + b + c) + (d + post));
    assert(whole =~= (pre + a + b + c) + d + post);
}

/// Where each of five joined byte strings stands between `pre` and `post`.
pub proof fn lemma_join5(
    pre: Seq<u8>,
    a: Seq<u8>,
    b: Seq<u8>,
    c: Seq<u8>,
    d: Seq<u8>,
    e: Seq<u8>,
    post: Seq<u8>,
)
    ensures
        pre + (a + b + c + d + e) + post == pre + a + (b + c + d + e + post),
        pre + (a + b + c + d + e) + post == (pre + a) + b + (c + d + e + post),
        pre + (a + b + c + d + e) + post == (pre + a + b) + c + (d + e + post),
        pre + (a + b + c + d + e) + post == (pre + a + b + c) + d + (e + post),
        pre + (a + b + c + d + e) + post == (pre + a + b + c + d) + e + post,
        (a + b + c + d + e).len() == a.len() + b.len() + c.len() + d.len() + e.len(),
{
    lemma_join4(pre, a, b, c, d, e + post);
    let whole = pre + (a + b + c + d + e) + post;
    assert(whole =~= pre + (a + b + c + d) + (e + post));
    assert(whole =~= (pre + a + b + c + d) + e + post);
}

/// Where each of six joined byte strings stands between `pre` and `post`.
pub proof fn lemma_join6(
    pre: Seq<u8>,
    a: Seq<u8>,
    b: Seq<u8>,
    c: Seq<u8>,
    d: Seq<u8>,
    e: Seq<u8>,
    f: Seq<u8>,
    post: Seq<u8>,
)
    ensures
        pre + (a + b + c + d + e + f) + post == pre + a + (b + c + d + e + f + post),
        pre + (a + b + c + d + e + f) + post == (pre + a) + b + (c + d + e + f + post),
        pre + (a + b + c + d + e + f) + post == (pre + a + b) + c + (d + e + f + post),
        pre + (a + b + c + d + e + f) + post == (pre + a + b + c) + d + (e + f + post),
        pre + (a + b + c + d + e + f) + post == (pre + a + b + c + d) + e + (f + post),
        pre + (a + b + c + d + e + f) + post == (pre + a + b + c + d + e) + f + post,
        (a + b + c + d + e + f).len() == a.len() + b.len() + c.len() + d.len() + e.len() + f.len(),
{
    lemma_join5(pre, a, b, c, d, e, f + post);
    let whole = pre + (a + b + c + d + e + f) + post;
    assert(whole =~= pre + (a + b + c + d + e) + (f + post));
    assert(whole =~= (pre + a + b + c + d + e) + f + post);
}

/// Where each of seven joined byte strings stands between `pre` and `post`.
pub proof fn lemma_join7(
    pre: Seq<u8>,
    a: Seq<u8>,
    b: Seq<u8>,
    c: Seq<u8>,
    d: Seq<u8>,
    e: Seq<u8>,
    f: Seq<u8>,
    g: Seq<u8>,
    post: Seq<u8>,
)
    ensures
        pre + (a + b + c + d + e + f + g) + post == pre + a + (b + c + d + e + f + g + post),
        pre + (a + b + c + d + e + f + g) + post == (pre + a) + b + (c + d + e + f + g + post),
        pre + (a + b + c + d + e + f + g) + post == (pre + a + b) + c + (d + e + f + g + post),
        pre + (a + b + c + d + e + f + g) + post == (pre + a + b + c) + d + (e + f + g + post),
        pre + (a + b + c + d + e + f + g) + post == (pre + a + b + c + d) + e + (f + g + post),
        pre + (a + b + c + d + e + f + g) + post == (pre + a + b + c + d + e) + f + (g + post),
        pre + (a + b + c + d + e + f + g) + post == (pre + a + b + c + d + e + f) + g + post,
        (a + b + c + d + e + f + g).len() == a.len() + b.len() + c.len() + d.len() + e.len()
            + f.len() + g.len(),
{
    lemma_join6(pre, a, b, c, d, e, f, g + post);
    let whole = pre + (a + b + c + d + e + f + g) + post;
    assert(whole =~= pre + (a + b + c + d + e + f) + (g + post));
    assert(whole =~= (pre + a + b + c + d + e + f) + g + post);
}

/// Where each of eight joined byte strings stands between `pre` and `post`.
pub proof fn lemma_join8(
    pre: Seq<u8>,
    a: Seq<u8>,
    b: Seq<u8>,
    c: Seq<u8>,
    d: Seq<u8>,
    e: Seq<u8>,
    f: Seq<u8>,
    g: Seq<u8>,
    h: Seq<u8>,
    post: Seq<u8>,
)
    ensures
        pre + (a + b + c + d + e + f + g + h) + post == pre + a + (b + c + d + e + f + g + h + post),
        pre + (a + b + c + d + e + f + g + h) + post == (pre + a) + b + (c + d + e + f + g + h + post),
        pre + (a + b + c + d + e + f + g + h) + post == (pre + a + b) + c + (d + e + f + g + h + post),
        pre + (a + b + c + d + e + f + g + h) + post == (pre + a + b + c) + d + (e + f + g + h + post),
        pre + (a + b + c + d + e + f + g + h) + post == (pre + a + b + c + d) + e + (f + g + h + post),
        pre + (a + b + c + d + e + f + g + h) + post == (pre + a + b + c + d + e) + f + (g + h + post),
        pre + (a + b + c + d + e + f + g + h) + post == (pre + a + b + c + d + e + f) + g + (h + post),
        pre + (a + b + c + d + e + f + g + h) + post == (pre + a + b + c + d + e + f + g) + h + post,
        (a + b + c + d + e + f + g + h).len() == a.len() + b.len() + c.len() + d.len() + e.len()
            + f.len() + g.len() + h.len(),
{
    lemma_join7(pre, a, b, c, d, e, f, g, h + post);
    let whole = pre + (a + b + c + d + e + f + g + h) + post;
    assert(whole =~= pre + (a + b + c + d + e + f + g) + (h + post));
    assert(whole =~= (pre + a + b + c + d + e + f + g) + h + post);
}

proof fn lemma_be_bytes_len(x: nat, n: nat)
    ensures
        be_bytes(x, n).len() == n,
    decreases n,
{
    if n > 0 {
        lemma_be_bytes_len(x / 256, (n - 1) as nat);
    }
}

proof fn lemma_be_value(input: Seq<u8>, pos: int, x: nat, n: nat)
    requires
        0 <= pos,
        pos + n <= input.len(),
        input.subrange(pos, pos + n) == be_bytes(x, n),
        fits_in(x, n),
    ensures
        be_value(input, pos, n) == x,
    decreases n,
{
    if n > 0 {
        let m = (n - 1) as nat;
        let whole = be_bytes(x, n);
        lemma_be_bytes_len(x / 256, m);
        assert(input[pos + n - 1] == input.subrange(pos, pos + n)[n - 1]);
        assert(input.subrange(pos, pos + m) =~= whole.drop_last());
        assert(whole.drop_last() =~= be_bytes(x / 256, m));
        lemma_be_value(input, pos, x / 256, m);
    }
}

proof fn lemma_fits(arg: u64)
    requires
        arg >= 24,
    ensures
        fits_in(arg as nat, following(info_for(arg))),
{
    let x0 = arg as nat;
    let x1 = x0 / 256;
    let x2 = x1 / 256;
    let x3 = x2 / 256;
    let x4 = x3 / 256;
    let x5 = x4 / 256;
    let x6 = x5 / 256;
    let x7 = x6 / 256;
    let x8 = x7 / 256;
    assert(fits_in(0, 0));
    if arg < 0x100 {
        assert(x1 == 0);
        assert(fits_in(x0, 1));
    } else if arg < 0x1_0000 {
        assert(x2 == 0);
        assert(fits_in(x1, 1));
        assert(fits_in(x0, 2));
    } else if arg < 0x1_0000_0000 {
        assert(x4 == 0);
        assert(fits_in(x3, 1));
        assert(fits_in(x2, 2));
        assert(fits_in(x1, 3));
        assert(fits_in(x0, 4));
    } else {
        assert(x8 == 0);
        assert(fits_in(x7, 1));
        assert(fits_in(x6, 2));
        assert(fits_in(x5, 3));
        assert(fits_in(x4, 4));
        assert(fits_in(x3, 5));
        assert(fits_in(x2, 6));
        assert(fits_in(x1, 7));
        assert(fits_in(x0, 8));
    }
}

/// A head is one to nine bytes long.
pub proof fn lemma_head_len(major: u8, arg: u64)
    ensures
        1 <= head(major, arg).len() <= 9,
        head(major, arg).len() == 1 + following(info_for(arg)),
{
    reveal(head);
    lemma_be_bytes_len(arg as nat, following(info_for(arg)));
}

/// A head that was written is read back, wherever it stands.
pub proof fn lemma_head_at(pre: Seq<u8>, major: u8, arg: u64, post: Seq<u8>)
    requires
        major < 8,
    ensures
        head_at(pre + head(major, arg) + post, pre.len() as int) == Some(
            (major, arg, (pre.len() + head(major, arg).len()) as int),
        ),
{
    reveal(head);
    reveal(head_at);
    let h = head(major, arg);
    let input = pre + h + post;
    let p = pre.len() as int;
    let n = following(info_for(arg));
    lemma_head_len(major, arg);
    assert(input[p] == h[0]);
    assert(input.subrange(p + 1, p + 1 + n) =~= be_bytes(arg as nat, n));
    if arg >= 24 {
        lemma_fits(arg);
        lemma_be_value(input, p + 1, arg as nat, n);
    }
}

/// An unsigned integer that was written is read back.
pub proof fn lemma_uint_round_trip(pre: Seq<u8>, v: u64, post: Seq<u8>)
    ensures
        uint_at(pre + uint_item(v) + post, pre.len() as int) == Some(
            (v, (pre.len() + uint_item(v).len()) as int),
        ),
{
    lemma_head_at(pre, MAJOR_UINT, v, post);
}

/// A byte string that was written is read back.
pub proof fn lemma_bytes_round_trip(pre: Seq<u8>, b: Seq<u8>, post: Seq<u8>)
    requires
        b.len() <= u64::MAX,
    ensures
        bytes_at(pre + bytes_item(b) + post, pre.len() as int) == Some(
            (b, (pre.len() + bytes_item(b).len()) as int),
        ),
{
    let h = head(MAJOR_BYTES, b.len() as u64);
    let input = pre + bytes_item(b) + post;
    assert(input =~= pre + h + (b + post));
    lemma_head_at(pre, MAJOR_BYTES, b.len() as u64, b + post);
    let next: int = (pre.len() + h.len()) as int;
    assert(input.subrange(next, next + b.len()) =~= b);
}

/// A text string that was written is read back.
pub proof fn lemma_text_round_trip(pre: Seq<u8>, s: Seq<char>, post: Seq<u8>)
    requires
        encode_utf8(s).len() <= u64::MAX,
    ensures
        text_at(pre + text_item(s) + post, pre.len() as int) == Some(
            (s, (pre.len() + text_item(s).len()) as int),
        ),
{
    let b = encode_utf8(s);
    let h = head(MAJOR_TEXT, b.len() as u64);
    let input = pre + text_item(s) + post;
    assert(input =~= pre + h + (b + post));
    lemma_head_at(pre, MAJOR_TEXT, b.len() as u64, b + post);
    let next: int = (pre.len() + h.len()) as int;
    assert(input.subrange(next, next + b.len()) =~= b);
    encode_utf8_valid_utf8(s);
    encode_utf8_decode_utf8(s);
}

/// An array head that was written is read back.
pub proof fn lemma_array_round_trip(pre: Seq<u8>, n: u64, post: Seq<u8>)
    ensures
        array_at(pre + array_head(n) + post, pre.len() as int) == Some(
            (Some(n), (pre.len() + array_head(n).len()) as int),
        ),
{
    reveal(head_at);
    reveal(open_at);
    lemma_head_at(pre, MAJOR_ARRAY, n, post);
}

/// A map head that was written is read back, and a map of definite length
/// starts where it stands.
pub proof fn lemma_map_round_trip(pre: Seq<u8>, n: u64, post: Seq<u8>)
    ensures
        map_at(pre + map_head(n) + post, pre.len() as int) == Some(
            (Some(n), (pre.len() + map_head(n).len()) as int),
        ),
        definite_map_at(pre + map_head(n) + post, pre.len() as int),
{
    reveal(head);
    reveal(head_at);
    reveal(open_at);
    lemma_head_at(pre, MAJOR_MAP, n, post);
    let input = pre + map_head(n) + post;
    assert(input[pre.len() as int] == map_head(n)[0]);
}

} // verus!
