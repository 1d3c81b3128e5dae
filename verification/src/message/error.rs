//! The errors that every part of the system reports: a numbered code, a
//! message template and the values of the template's fields.

use crate::cbor::{
    array_at, array_head, definite_map_at, is_map, lemma_array_round_trip, lemma_join3,
    lemma_map_round_trip, lemma_text_round_trip, lemma_uint_round_trip, map_at, map_head,
    put_array, put_map, put_text, put_uint, read_array, read_map, read_text, read_u32, text_at,
    text_item, uint_at, uint_item,
};
use crate::message::fields::{collect, lemma_collect_sorted, lookup, put, sorted, Fields};
use crate::message::DecodeError;
use crate::text::{chars_of, text_of};
use vstd::prelude::*;
use vstd::string::StringExecFns;
use vstd::utf8::encode_utf8;

verus! {

/// The first code that applications may define for themselves.
pub const RESERVED_OMNI_ERROR_CODE: u32 = 10000;

/// The code of an error.
#[derive(Copy, Clone, Debug, PartialEq, Eq, Structural)]
pub enum OmniErrorCode {
    Unknown,
    MessageTooLong,
    InvalidMethodName,
    InvalidFromIdentity,
    CouldNotVerifySignature,
    UnknownDestination,
    EmptyEnvelope,
    InternalServerError,
    ApplicationSpecific(u32),
}

/// The range that a code lies in.
#[derive(Copy, Clone, Debug, PartialEq, Eq, Structural)]
pub enum ErrorCategory {
    /// 0 to 999: unexpected or transport errors.
    Transport,
    /// 1000 to 1999: request errors.
    Request,
    /// 2000 to 2999: server errors.
    Server,
    /// 3000 to 9999: assigned to nothing.
    Unassigned,
    /// 10000 and above: defined by applications.
    ApplicationSpecific,
}

/// The range of the number `code`.
pub open spec fn category_of(code: u32) -> ErrorCategory {
    if code < 1000 {
        ErrorCategory::Transport
    } else if code < 2000 {
        ErrorCategory::Request
    } else if code < 3000 {
        ErrorCategory::Server
    } else if code < RESERVED_OMNI_ERROR_CODE {
        ErrorCategory::Unassigned
    } else {
        ErrorCategory::ApplicationSpecific
    }
}

/// The code that the number `v` stands for: one of the registry, an
/// application's code from 10000 on, `Unknown` for every other number.
pub open spec fn code_of(v: u32) -> OmniErrorCode {
    if v == 0 {
        OmniErrorCode::Unknown
    } else if v == 1 {
        OmniErrorCode::MessageTooLong
    } else if v == 1000 {
        OmniErrorCode::InvalidMethodName
    } else if v == 1001 {
        OmniErrorCode::InvalidFromIdentity
    } else if v == 1002 {
        OmniErrorCode::CouldNotVerifySignature
    } else if v == 1003 {
        OmniErrorCode::UnknownDestination
    } else if v == 1004 {
        OmniErrorCode::EmptyEnvelope
    } else if v == 2000 {
        OmniErrorCode::InternalServerError
    } else if v >= RESERVED_OMNI_ERROR_CODE {
        OmniErrorCode::ApplicationSpecific(v)
    } else {
        OmniErrorCode::Unknown
    }
}

impl OmniErrorCode {
    /// The number of the code.
    pub open spec fn spec_value(self) -> u32 {
        match self {
            OmniErrorCode::Unknown => 0,
            OmniErrorCode::MessageTooLong => 1,
            OmniErrorCode::InvalidMethodName => 1000,
            OmniErrorCode::InvalidFromIdentity => 1001,
            OmniErrorCode::CouldNotVerifySignature => 1002,
            OmniErrorCode::UnknownDestination => 1003,
            OmniErrorCode::EmptyEnvelope => 1004,
            OmniErrorCode::InternalServerError => 2000,
            OmniErrorCode::ApplicationSpecific(x) => x,
        }
    }

    /// An application's code is 10000 or above.
    pub open spec fn wf(self) -> bool {
        self matches OmniErrorCode::ApplicationSpecific(x) ==> x >= RESERVED_OMNI_ERROR_CODE
    }

    /// See [`OmniErrorCode::is_application_specific`].
    pub open spec fn spec_is_application_specific(&self) -> bool {
        self matches OmniErrorCode::ApplicationSpecific(x) && x >= RESERVED_OMNI_ERROR_CODE
    }

    /// The registered message template of the code; applications' codes
    /// have none.
    pub open spec fn spec_message(self) -> Option<Seq<char>> {
        match self {
            OmniErrorCode::Unknown => Some("Unknown error."@),
            OmniErrorCode::MessageTooLong => Some(
                "Message is too long. Max allowed size is {max} bytes."@,
            ),
            OmniErrorCode::InvalidMethodName => Some("Invalid method name: \"{method}\"."@),
            OmniErrorCode::InvalidFromIdentity => Some(
                "The identity of the from field is invalid or unexpected."@,
            ),
            OmniErrorCode::CouldNotVerifySignature => Some(
                "Signature does not match the public key."@,
            ),
            OmniErrorCode::UnknownDestination => Some(
                "Unknown destination for message.\nThis is \"{this}\", message was for \"{to}\"."@,
            ),
            OmniErrorCode::EmptyEnvelope => Some("An envelope must contain a payload."@),
            OmniErrorCode::InternalServerError => Some("An internal server error happened."@),
            OmniErrorCode::ApplicationSpecific(_) => None,
        }
    }

    /// The number of the code.
    pub fn value(self) -> (v: u32)
        ensures
            v == self.spec_value(),
    {
        match self {
            OmniErrorCode::Unknown => 0,
            OmniErrorCode::MessageTooLong => 1,
            OmniErrorCode::InvalidMethodName => 1000,
            OmniErrorCode::InvalidFromIdentity => 1001,
            OmniErrorCode::CouldNotVerifySignature => 1002,
            OmniErrorCode::UnknownDestination => 1003,
            OmniErrorCode::EmptyEnvelope => 1004,
            OmniErrorCode::InternalServerError => 2000,
            OmniErrorCode::ApplicationSpecific(x) => x,
        }
    }

    /// The code that the number `v` stands for.
    pub fn from_u32(v: u32) -> (c: OmniErrorCode)
        ensures
            c == code_of(v),
            c.wf(),
    {
        if v == 0 {
            OmniErrorCode::Unknown
        } else if v == 1 {
            OmniErrorCode::MessageTooLong
        } else if v == 1000 {
            OmniErrorCode::InvalidMethodName
        } else if v == 1001 {
            OmniErrorCode::InvalidFromIdentity
        } else if v == 1002 {
            OmniErrorCode::CouldNotVerifySignature
        } else if v == 1003 {
            OmniErrorCode::UnknownDestination
        } else if v == 1004 {
            OmniErrorCode::EmptyEnvelope
        } else if v == 2000 {
            OmniErrorCode::InternalServerError
        } else if v >= RESERVED_OMNI_ERROR_CODE {
            OmniErrorCode::ApplicationSpecific(v)
        } else {
            OmniErrorCode::Unknown
        }
    }

    /// The registered message template of the code; applications' codes
    /// have none.
    pub fn message(&self) -> (m: Option<&'static str>)
        ensures
            m is Some <==> self.spec_message() is Some,
            m matches Some(t) ==> Some(t@) == self.spec_message(),
    {
        match self {
            OmniErrorCode::Unknown => Some("Unknown error."),
            OmniErrorCode::MessageTooLong => Some(
                "Message is too long. Max allowed size is {max} bytes.",
            ),
            OmniErrorCode::InvalidMethodName => Some("Invalid method name: \"{method}\"."),
            OmniErrorCode::InvalidFromIdentity => Some(
                "The identity of the from field is invalid or unexpected.",
            ),
            OmniErrorCode::CouldNotVerifySignature => Some(
                "Signature does not match the public key.",
            ),
            OmniErrorCode::UnknownDestination => Some(
                "Unknown destination for message.\nThis is \"{this}\", message was for \"{to}\".",
            ),
            OmniErrorCode::EmptyEnvelope => Some("An envelope must contain a payload."),
            OmniErrorCode::InternalServerError => Some("An internal server error happened."),
            OmniErrorCode::ApplicationSpecific(_) => None,
        }
    }

    /// Whether the code is one that an application defined: 10000 or above.
    #[verifier::when_used_as_spec(spec_is_application_specific)]
    pub fn is_application_specific(&self) -> (r: bool)
        ensures
            r == self.spec_is_application_specific(),
    {
        match self {
            OmniErrorCode::ApplicationSpecific(x) => *x >= RESERVED_OMNI_ERROR_CODE,
            _ => false,
        }
    }

    /// The registered message template of the number `code`.
    pub fn message_of(code: u32) -> (m: Option<&'static str>)
        ensures
            m is Some <==> code_of(code).spec_message() is Some,
            m matches Some(t) ==> Some(t@) == code_of(code).spec_message(),
    {
        OmniErrorCode::from_u32(code).message()
    }

    /// The range that the code lies in.
    pub fn category(&self) -> (r: ErrorCategory)
        ensures
            r == category_of(self.spec_value()),
    {
        let v = self.value();
        if v < 1000 {
            ErrorCategory::Transport
        } else if v < 2000 {
            ErrorCategory::Request
        } else if v < 3000 {
            ErrorCategory::Server
        } else if v < RESERVED_OMNI_ERROR_CODE {
            ErrorCategory::Unassigned
        } else {
            ErrorCategory::ApplicationSpecific
        }
    }
}

impl Default for OmniErrorCode {
    fn default() -> (c: Self)
        ensures
            c == OmniErrorCode::Unknown,
    {
        OmniErrorCode::Unknown
    }
}

impl From<u32> for OmniErrorCode {
    fn from(v: u32) -> (c: Self) {
        OmniErrorCode::from_u32(v)
    }
}

impl vstd::std_specs::convert::FromSpecImpl<u32> for OmniErrorCode {
    open spec fn obeys_from_spec() -> bool {
        true
    }

    open spec fn from_spec(v: u32) -> Self {
        code_of(v)
    }
}

impl From<OmniErrorCode> for u32 {
    fn from(c: OmniErrorCode) -> (v: Self) {
        c.value()
    }
}

impl vstd::std_specs::convert::FromSpecImpl<OmniErrorCode> for u32 {
    open spec fn obeys_from_spec() -> bool {
        true
    }

    open spec fn from_spec(c: OmniErrorCode) -> Self {
        c.spec_value()
    }
}

/// Each range holds the codes of its kind: a number names an application's
/// code exactly from 10000 on, such a code carries that number, and the
/// registered codes lie in the ranges of transport, request and server
/// errors.
pub proof fn lemma_code_ranges(v: u32)
    ensures
        code_of(v).wf(),
        code_of(v).spec_is_application_specific() <==> v >= RESERVED_OMNI_ERROR_CODE,
        code_of(v).spec_is_application_specific() <==> category_of(v)
            == ErrorCategory::ApplicationSpecific,
        code_of(v) matches OmniErrorCode::ApplicationSpecific(x) ==> x == v && x
            >= RESERVED_OMNI_ERROR_CODE,
        v < 1000 ==> category_of(v) == ErrorCategory::Transport,
        1000 <= v < 2000 ==> category_of(v) == ErrorCategory::Request,
        2000 <= v < 3000 ==> category_of(v) == ErrorCategory::Server,
        category_of(OmniErrorCode::Unknown.spec_value()) == ErrorCategory::Transport,
        category_of(OmniErrorCode::MessageTooLong.spec_value()) == ErrorCategory::Transport,
        category_of(OmniErrorCode::InvalidMethodName.spec_value()) == ErrorCategory::Request,
        category_of(OmniErrorCode::InvalidFromIdentity.spec_value()) == ErrorCategory::Request,
        category_of(OmniErrorCode::CouldNotVerifySignature.spec_value())
            == ErrorCategory::Request,
        category_of(OmniErrorCode::UnknownDestination.spec_value()) == ErrorCategory::Request,
        category_of(OmniErrorCode::EmptyEnvelope.spec_value()) == ErrorCategory::Request,
        category_of(OmniErrorCode::InternalServerError.spec_value()) == ErrorCategory::Server,
{
}

/// A code is found again from its number.
pub proof fn lemma_code_round_trip(c: OmniErrorCode)
    requires
        c.wf(),
    ensures
        code_of(c.spec_value()) == c,
{
}

/// An error: its code, the message template that replaces the registered
/// one, and the values of the template's fields.
#[derive(Debug)]
pub struct OmniError {
    pub code: OmniErrorCode,
    pub message: Option<String>,
    pub fields: Fields,
}

/// An error as a mathematical value.
pub ghost struct OmniErrorView {
    pub code: OmniErrorCode,
    pub message: Option<Seq<char>>,
    pub fields: Seq<(Seq<char>, Seq<char>)>,
}

impl View for OmniError {
    type V = OmniErrorView;

    open spec fn view(&self) -> OmniErrorView {
        OmniErrorView {
            code: self.code,
            message: match self.message {
                Some(m) => Some(m@),
                None => None,
            },
            fields: self.fields@,
        }
    }
}

/// The index of the first `}` of `t` at or behind `i`; the length of `t`
/// where there is none.
pub open spec fn closing(t: Seq<char>, i: int) -> int
    decreases t.len() - i,
{
    if i >= t.len() {
        t.len() as int
    } else if i >= 0 && t[i] == '}' {
        i
    } else {
        closing(t, i + 1)
    }
}

/// The value of the field `name`: the empty text where `fields` has none.
pub open spec fn field_value(fields: Seq<(Seq<char>, Seq<char>)>, name: Seq<char>) -> Seq<char> {
    match lookup(fields, name) {
        Some(v) => v,
        None => Seq::empty(),
    }
}

/// The template `t` from index `i` on, rendered from left to right: `{{`
/// gives `{`, `}}` gives `}`, a `{` with a `}` somewhere behind it gives the
/// value of the field named between the two, and every other character
/// gives itself.
pub open spec fn render_from(t: Seq<char>, i: int, fields: Seq<(Seq<char>, Seq<char>)>) -> Seq<
    char,
>
    decreases t.len() - i,
{
    let j = closing(t, i + 1);
    if i < 0 || i >= t.len() {
        Seq::empty()
    } else if i + 1 < t.len() && t[i] == '{' && t[i + 1] == '{' {
        seq!['{'] + render_from(t, i + 2, fields)
    } else if i + 1 < t.len() && t[i] == '}' && t[i + 1] == '}' {
        seq!['}'] + render_from(t, i + 2, fields)
    } else if t[i] == '{' && i < j < t.len() {
        field_value(fields, t.subrange(i + 1, j)) + render_from(t, j + 1, fields)
    } else {
        seq![t[i]] + render_from(t, i + 1, fields)
    }
}

/// The template `t` rendered with the values of `fields`.
pub open spec fn render(t: Seq<char>, fields: Seq<(Seq<char>, Seq<char>)>) -> Seq<char> {
    render_from(t, 0, fields)
}

impl OmniErrorView {
    /// The template that is rendered: the error's own message, else the
    /// registered one of its code, else a fixed text.
    pub open spec fn template(self) -> Seq<char> {
        match self.message {
            Some(m) => m,
            None => match self.code.spec_message() {
                Some(t) => t,
                None => "Invalid error code."@,
            },
        }
    }

    /// The error as a text for people.
    pub open spec fn text(self) -> Seq<char> {
        render(self.template(), self.fields)
    }
}

fn find_closing(t: &Vec<char>, from: usize) -> (j: usize)
    requires
        from <= t.len(),
    ensures
        j == closing(t@, from as int),
        from <= j <= t.len(),
{
    let mut j: usize = from;
    while j < t.len() && t[j] != '}'
        invariant
            from <= j <= t.len(),
            closing(t@, from as int) == closing(t@, j as int),
        decreases t.len() - j,
    {
        j += 1;
    }
    j
}

/// Renders the template `template` with the values of `fields`.
pub fn render_template(template: &str, fields: &Fields) -> (s: String)
    ensures
        s@ == render(template@, fields@),
{
    let t = chars_of(template);
    let mut out = String::new();
    let mut i: usize = 0;
    while i < t.len()
        invariant
            i <= t.len(),
            t@ == template@,
            render(template@, fields@) == out@ + render_from(t@, i as int, fields@),
        decreases t.len() - i,
    {
        let ghost before = out@;
        let c = t[i];
        if c == '{' && i + 1 < t.len() && t[i + 1] == '{' {
            out.push('{');
            assert(out@ + render_from(t@, i + 2, fields@) =~= before + render_from(
                t@,
                i as int,
                fields@,
            ));
            i += 2;
        } else if c == '}' && i + 1 < t.len() && t[i + 1] == '}' {
            out.push('}');
            assert(out@ + render_from(t@, i + 2, fields@) =~= before + render_from(
                t@,
                i as int,
                fields@,
            ));
            i += 2;
        } else {
            let j = if c == '{' {
                find_closing(&t, i + 1)
            } else {
                t.len()
            };
            if j < t.len() {
                let name = text_of(&t, i + 1, j);
                match fields.get(name.as_str()) {
                    Some(v) => {
                        out.append(v.as_str());
                    },
                    None => {},
                }
                assert(out@ + render_from(t@, j + 1, fields@) =~= before + render_from(
                    t@,
                    i as int,
                    fields@,
                ));
                i = j + 1;
            } else {
                out.push(c);
                assert(out@ + render_from(t@, i + 1, fields@) =~= before + render_from(
                    t@,
                    i as int,
                    fields@,
                ));
                i += 1;
            }
        }
    }
    assert(out@ + render_from(t@, i as int, fields@) =~= out@);
    out
}

impl OmniError {
    /// Whether the error's code is one that an application defined.
    pub fn is_application_specific(&self) -> (r: bool)
        ensures
            r == self.code.spec_is_application_specific(),
    {
        self.code.is_application_specific()
    }

    fn with_code(code: OmniErrorCode) -> (e: OmniError)
        ensures
            e@ == (OmniErrorView { code, message: None, fields: Seq::empty() }),
            e.fields.wf(),
    {
        OmniError { code, message: None, fields: Fields::new() }
    }

    /// "Unknown error."
    pub fn unknown() -> (e: OmniError)
        ensures
            e@ == (OmniErrorView {
                code: OmniErrorCode::Unknown,
                message: None,
                fields: Seq::empty(),
            }),
            e.fields.wf(),
    {
        OmniError::with_code(OmniErrorCode::Unknown)
    }

    /// "Message is too long. Max allowed size is {max} bytes."
    pub fn message_too_long(max: String) -> (e: OmniError)
        ensures
            e@ == (OmniErrorView {
                code: OmniErrorCode::MessageTooLong,
                message: None,
                fields: seq![("max"@, max@)],
            }),
            e.fields.wf(),
    {
        let mut e = OmniError::with_code(OmniErrorCode::MessageTooLong);
        e.fields.insert("max".to_owned(), max);
        e
    }

    /// "Invalid method name: "{method}"."
    pub fn invalid_method_name(method: String) -> (e: OmniError)
        ensures
            e@ == (OmniErrorView {
                code: OmniErrorCode::InvalidMethodName,
                message: None,
                fields: seq![("method"@, method@)],
            }),
            e.fields.wf(),
    {
        let mut e = OmniError::with_code(OmniErrorCode::InvalidMethodName);
        e.fields.insert("method".to_owned(), method);
        e
    }

    /// "The identity of the from field is invalid or unexpected."
    pub fn invalid_from_identity() -> (e: OmniError)
        ensures
            e@ == (OmniErrorView {
                code: OmniErrorCode::InvalidFromIdentity,
                message: None,
                fields: Seq::empty(),
            }),
            e.fields.wf(),
    {
        OmniError::with_code(OmniErrorCode::InvalidFromIdentity)
    }

    /// "Signature does not match the public key."
    pub fn could_not_verify_signature() -> (e: OmniError)
        ensures
            e@ == (OmniErrorView {
                code: OmniErrorCode::CouldNotVerifySignature,
                message: None,
                fields: Seq::empty(),
            }),
            e.fields.wf(),
    {
        OmniError::with_code(OmniErrorCode::CouldNotVerifySignature)
    }

    /// "Unknown destination for message. This is "{this}", message was for
    /// "{to}"."
    pub fn unknown_destination(to: String, this: String) -> (e: OmniError)
        ensures
            e@ == (OmniErrorView {
                code: OmniErrorCode::UnknownDestination,
                message: None,
                fields: put(seq![("to"@, to@)], "this"@, this@),
            }),
            e.fields.wf(),
    {
        let mut e = OmniError::with_code(OmniErrorCode::UnknownDestination);
        e.fields.insert("to".to_owned(), to);
        e.fields.insert("this".to_owned(), this);
        e
    }

    /// "An envelope must contain a payload."
    pub fn empty_envelope() -> (e: OmniError)
        ensures
            e@ == (OmniErrorView {
                code: OmniErrorCode::EmptyEnvelope,
                message: None,
                fields: Seq::empty(),
            }),
            e.fields.wf(),
    {
        OmniError::with_code(OmniErrorCode::EmptyEnvelope)
    }

    /// "An internal server error happened."
    pub fn internal_server_error() -> (e: OmniError)
        ensures
            e@ == (OmniErrorView {
                code: OmniErrorCode::InternalServerError,
                message: None,
                fields: Seq::empty(),
            }),
            e.fields.wf(),
    {
        OmniError::with_code(OmniErrorCode::InternalServerError)
    }

    /// The error as a text for people: its template, rendered with its
    /// fields.
    pub fn to_string(&self) -> (s: String)
        ensures
            s@ == self@.text(),
    {
        let template: &str = match &self.message {
            Some(m) => m.as_str(),
            None => match self.code.message() {
                Some(t) => t,
                None => "Invalid error code.",
            },
        };
        render_template(template, &self.fields)
    }
}

impl Default for OmniError {
    fn default() -> (e: Self)
        ensures
            e@ == (OmniErrorView {
                code: OmniErrorCode::Unknown,
                message: None,
                fields: Seq::empty(),
            }),
    {
        OmniError::unknown()
    }
}

/// Why an error could not be written to bytes.
#[derive(Clone, Copy, Debug, PartialEq, Eq, Structural)]
pub enum EncodeError {
    /// The code is an application's, and the error has no message.
    MissingMessage,
}

/// The entries of a map, one behind the other: name, then value, as text
/// strings.
pub open spec fn entries_bytes(s: Seq<(Seq<char>, Seq<char>)>) -> Seq<u8>
    decreases s.len(),
{
    if s.len() == 0 {
        Seq::empty()
    } else {
        text_item(s[0].0) + text_item(s[0].1) + entries_bytes(s.drop_first())
    }
}

/// The fields of an error in bytes: nothing where there are none, else a
/// map.
pub open spec fn fields_bytes(s: Seq<(Seq<char>, Seq<char>)>) -> Seq<u8> {
    if s.len() == 0 {
        Seq::empty()
    } else {
        map_head(s.len() as u64) + entries_bytes(s)
    }
}

/// The `n` entries that are read from `pos` on, and the position behind
/// them.
pub open spec fn entries_at(input: Seq<u8>, pos: int, n: nat) -> Option<
    (Seq<(Seq<char>, Seq<char>)>, int),
>
    decreases n,
{
    if n == 0 {
        Some((Seq::empty(), pos))
    } else {
        match text_at(input, pos) {
            Some((k, at1)) => match text_at(input, at1) {
                Some((v, at2)) => match entries_at(input, at2, (n - 1) as nat) {
                    Some((rest, end)) => Some((seq![(k, v)] + rest, end)),
                    None => None,
                },
                None => None,
            },
            None => None,
        }
    }
}

/// The fields that are read at `pos`: those of the map of definite length
/// that starts there, a later entry replacing an earlier one of the same
/// name; none where no such map starts.
pub open spec fn fields_at(input: Seq<u8>, pos: int) -> Option<Seq<(Seq<char>, Seq<char>)>> {
    if definite_map_at(input, pos) {
        match map_at(input, pos) {
            Some((Some(n), p)) => match entries_at(input, p, n as nat) {
                Some((entries, _)) => Some(collect(entries)),
                None => None,
            },
            _ => None,
        }
    } else {
        Some(Seq::empty())
    }
}

/// The error that bytes stand for, if any: an array head, the code, the
/// message where the code is an application's, and the fields where a map
/// follows.
pub open spec fn error_of(input: Seq<u8>) -> Option<OmniErrorView> {
    match array_at(input, 0) {
        Some((_, at1)) => match uint_at(input, at1) {
            Some((c, at2)) => if c > u32::MAX {
                None
            } else if code_of(c as u32).spec_is_application_specific() {
                match text_at(input, at2) {
                    Some((m, at3)) => match fields_at(input, at3) {
                        Some(f) => Some(
                            OmniErrorView { code: code_of(c as u32), message: Some(m), fields: f },
                        ),
                        None => None,
                    },
                    None => None,
                }
            } else {
                match fields_at(input, at2) {
                    Some(f) => Some(
                        OmniErrorView { code: code_of(c as u32), message: None, fields: f },
                    ),
                    None => None,
                }
            },
            None => None,
        },
        None => None,
    }
}

impl OmniErrorView {
    /// An error with an application's code has a message.
    pub open spec fn encodable(self) -> bool {
        self.code.spec_is_application_specific() ==> self.message is Some
    }

    /// The number of items of the error's array: the code, the message
    /// where the code is an application's, the fields where there are any.
    pub open spec fn item_count(self) -> u64 {
        (1 + (if self.code.spec_is_application_specific() {
            1int
        } else {
            0int
        }) + (if self.fields.len() > 0 {
            1int
        } else {
            0int
        })) as u64
    }

    /// The error in bytes.
    pub open spec fn bytes(self) -> Seq<u8> {
        array_head(self.item_count()) + uint_item(self.code.spec_value() as u64) + (if self.code
            .spec_is_application_specific() {
            text_item(self.message->0)
        } else {
            Seq::empty()
        }) + fields_bytes(self.fields)
    }

    /// What holds of an error that is read back as it was written: its code
    /// is no application's code below 10000, it has a message exactly if
    /// its code is an application's, the names of its fields increase, and
    /// its texts and the number of its fields fit in 64 bits.
    pub open spec fn wf(self) -> bool {
        &&& self.code.wf()
        &&& self.message is Some <==> self.code.spec_is_application_specific()
        &&& sorted(self.fields)
        &&& self.fields.len() <= u64::MAX
        &&& self.message is Some ==> encode_utf8(self.message->0).len() <= u64::MAX
        &&& entries_fit(self.fields)
    }
}

impl OmniError {
    /// Writes the error to bytes. It cannot be written where its code is an
    /// application's and it has no message.
    pub fn to_bytes(&self) -> (r: Result<Vec<u8>, EncodeError>)
        ensures
            r is Ok <==> self@.encodable(),
            r matches Ok(b) ==> b@ == self@.bytes(),
            r matches Err(e) ==> e == EncodeError::MissingMessage,
    {
        let app = self.code.is_application_specific();
        if app && self.message.is_none() {
            return Err(EncodeError::MissingMessage);
        }
        let n = self.fields.len();
        let count: u64 = 1 + (if app {
            1
        } else {
            0
        }) + (if n > 0 {
            1
        } else {
            0
        });
        let mut out: Vec<u8> = Vec::new();
        put_array(&mut out, count);
        put_uint(&mut out, self.code.value() as u64);
        if app {
            match &self.message {
                Some(m) => {
                    put_text(&mut out, m.as_str());
                },
                None => {},
            }
        }
        let ghost base = out@;
        assert(base =~= array_head(self@.item_count()) + uint_item(
            self.code.spec_value() as u64,
        ) + (if self.code.spec_is_application_specific() {
            text_item(self@.message->0)
        } else {
            Seq::empty()
        }));
        if n > 0 {
            put_map(&mut out, n as u64);
            let ghost start = out@;
            let mut i: usize = 0;
            assert(self@.fields.skip(0) =~= self@.fields);
            while i < n
                invariant
                    i <= n,
                    n == self@.fields.len(),
                    start + entries_bytes(self@.fields) == out@ + entries_bytes(
                        self@.fields.skip(i as int),
                    ),
                decreases n - i,
            {
                let ghost before = out@;
                let ghost rest = self@.fields.skip(i as int);
                put_text(&mut out, self.fields.key(i).as_str());
                put_text(&mut out, self.fields.value(i).as_str());
                assert(rest[0] == self@.fields[i as int]);
                assert(rest.drop_first() =~= self@.fields.skip(i + 1));
                assert(out@ + entries_bytes(self@.fields.skip(i + 1)) =~= before + entries_bytes(
                    rest,
                ));
                i += 1;
            }
            assert(out@ =~= start + entries_bytes(self@.fields));
            assert(out@ =~= base + fields_bytes(self@.fields));
        } else {
            assert(out@ =~= base + fields_bytes(self@.fields));
        }
        Ok(out)
    }

    /// Reads the `n` entries of a map from `pos` on into fields.
    fn read_entries(input: &[u8], pos: usize, n: u64) -> (r: Option<Fields>)
        ensures
            r is Some <==> entries_at(input@, pos as int, n as nat) is Some,
            r matches Some(f) ==> f.wf() && (entries_at(input@, pos as int, n as nat) matches Some(
                (entries, _),
            ) && f@ == collect(entries)),
    {
        let mut fields = Fields::new();
        let ghost mut read: Seq<(Seq<char>, Seq<char>)> = Seq::empty();
        let mut at: usize = pos;
        let mut i: u64 = 0;
        while i < n
            invariant
                i <= n,
                fields.wf(),
                fields@ == collect(read),
                entries_at(input@, pos as int, n as nat) == (match entries_at(
                    input@,
                    at as int,
                    (n - i) as nat,
                ) {
                    Some((rest, end)) => Some((read + rest, end)),
                    None => None,
                }),
            decreases n - i,
        {
            let (key, at1) = match read_text(input, at) {
                Some(found) => found,
                None => {
                    return None;
                },
            };
            let (value, at2) = match read_text(input, at1) {
                Some(found) => found,
                None => {
                    return None;
                },
            };
            proof {
                let pair = (key@, value@);
                assert(read.push(pair).drop_last() =~= read);
                match entries_at(input@, at2 as int, (n - i - 1) as nat) {
                    Some((rest, end)) => {
                        assert(read + (seq![pair] + rest) =~= read.push(pair) + rest);
                    },
                    None => {},
                }
                read = read.push(pair);
            }
            fields.insert(key, value);
            at = at2;
            i += 1;
        }
        assert(read + Seq::<(Seq<char>, Seq<char>)>::empty() =~= read);
        Some(fields)
    }

    /// Reads the fields of an error at `pos`.
    fn read_fields(input: &[u8], pos: usize) -> (r: Option<Fields>)
        ensures
            r is Some <==> fields_at(input@, pos as int) is Some,
            r matches Some(f) ==> Some(f@) == fields_at(input@, pos as int) && f.wf(),
    {
        if is_map(input, pos) {
            match read_map(input, pos) {
                Some((Some(n), p)) => OmniError::read_entries(input, p, n),
                _ => None,
            }
        } else {
            Some(Fields::new())
        }
    }

    /// Reads an error from bytes. The number that the array head announces
    /// is not looked at, nor what follows the error.
    pub fn from_bytes(input: &[u8]) -> (r: Result<OmniError, DecodeError>)
        ensures
            r is Ok <==> error_of(input@) is Some,
            r matches Ok(e) ==> Some(e@) == error_of(input@) && e.code.wf() && e.fields.wf(),
            r matches Err(e) ==> e == DecodeError::Malformed,
    {
        let at1 = match read_array(input, 0) {
            Some((_, next)) => next,
            None => {
                return Err(DecodeError::Malformed);
            },
        };
        let (c, at2) = match read_u32(input, at1) {
            Some(found) => found,
            None => {
                return Err(DecodeError::Malformed);
            },
        };
        let code = OmniErrorCode::from_u32(c);
        if code.is_application_specific() {
            let (m, at3) = match read_text(input, at2) {
                Some(found) => found,
                None => {
                    return Err(DecodeError::Malformed);
                },
            };
            match OmniError::read_fields(input, at3) {
                Some(fields) => Ok(OmniError { code, message: Some(m), fields }),
                None => Err(DecodeError::Malformed),
            }
        } else {
            match OmniError::read_fields(input, at2) {
                Some(fields) => Ok(OmniError { code, message: None, fields }),
                None => Err(DecodeError::Malformed),
            }
        }
    }
}

/// Whether the UTF-8 forms of a name and its value are each shorter than
/// 2^64 bytes.
pub open spec fn entry_fits(e: (Seq<char>, Seq<char>)) -> bool {
    encode_utf8(e.0).len() <= u64::MAX && encode_utf8(e.1).len() <= u64::MAX
}

/// Whether every entry of `s` fits.
pub open spec fn entries_fit(s: Seq<(Seq<char>, Seq<char>)>) -> bool {
    forall|i: int| 0 <= i < s.len() ==> entry_fits(#[trigger] s[i])
}

proof fn lemma_entries_fit_tail(s: Seq<(Seq<char>, Seq<char>)>)
    requires
        entries_fit(s),
        s.len() > 0,
    ensures
        entries_fit(s.drop_first()),
        encode_utf8(s[0].0).len() <= u64::MAX,
        encode_utf8(s[0].1).len() <= u64::MAX,
{
    let tail = s.drop_first();
    assert(entry_fits(s[0]));
    assert forall|i: int| 0 <= i < tail.len() implies entry_fits(#[trigger] tail[i]) by {
        assert(tail[i] == s[i + 1]);
    }
}

proof fn lemma_entries_step(
    input: Seq<u8>,
    s: Seq<(Seq<char>, Seq<char>)>,
    at0: int,
    at1: int,
    at2: int,
    end: int,
)
    requires
        s.len() > 0,
        text_at(input, at0) == Some((s[0].0, at1)),
        text_at(input, at1) == Some((s[0].1, at2)),
        entries_at(input, at2, (s.len() - 1) as nat) == Some((s.drop_first(), end)),
    ensures
        entries_at(input, at0, s.len()) == Some((s, end)),
{
    assert(seq![(s[0].0, s[0].1)] + s.drop_first() =~= s);
}

/// The entries of a map that were written are read back, wherever they
/// stand.
pub proof fn lemma_entries_round_trip(pre: Seq<u8>, s: Seq<(Seq<char>, Seq<char>)>, post: Seq<u8>)
    requires
        entries_fit(s),
    ensures
        entries_at(pre + entries_bytes(s) + post, pre.len() as int, s.len()) == Some(
            (s, (pre.len() + entries_bytes(s).len()) as int),
        ),
    decreases s.len(),
{
    if s.len() == 0 {
        assert(s =~= Seq::<(Seq<char>, Seq<char>)>::empty());
        assert(entries_bytes(s).len() == 0);
    } else {
        let k = text_item(s[0].0);
        let v = text_item(s[0].1);
        let tail = s.drop_first();
        let rest = entries_bytes(tail);
        lemma_entries_fit_tail(s);
        lemma_join3(pre, k, v, rest, post);
        lemma_text_round_trip(pre, s[0].0, v + rest + post);
        lemma_text_round_trip(pre + k, s[0].1, rest + post);
        lemma_entries_round_trip(pre + k + v, tail, post);
        lemma_entries_step(
            pre + entries_bytes(s) + post,
            s,
            pre.len() as int,
            (pre.len() + k.len()) as int,
            (pre.len() + k.len() + v.len()) as int,
            (pre.len() + k.len() + v.len() + rest.len()) as int,
        );
    }
}

/// An error that was written to bytes is read back from them as it was:
/// its code, its message and its fields. This holds of every well-formed
/// error, whether it has a message or not and fields or not.
pub proof fn lemma_error_round_trip(e: OmniErrorView)
    requires
        e.wf(),
    ensures
        e.encodable(),
        error_of(e.bytes()) == Some(e),
{
    let a = array_head(e.item_count());
    let u = uint_item(e.code.spec_value() as u64);
    let m = if e.code.spec_is_application_specific() {
        text_item(e.message->0)
    } else {
        Seq::empty()
    };
    let f = fields_bytes(e.fields);
    let input = e.bytes();
    lemma_code_round_trip(e.code);
    assert(input =~= Seq::<u8>::empty() + a + (u + m + f));
    lemma_array_round_trip(Seq::empty(), e.item_count(), u + m + f);
    assert(input =~= a + u + (m + f));
    lemma_uint_round_trip(a, e.code.spec_value() as u64, m + f);
    let at3 = (a + u + m).len() as int;
    if e.code.spec_is_application_specific() {
        assert(input =~= (a + u) + m + f);
        lemma_text_round_trip(a + u, e.message->0, f);
    } else {
        assert(a + u + m =~= a + u);
    }
    if e.fields.len() == 0 {
        assert(input =~= a + u + m);
        assert(fields_at(input, at3) == Some(e.fields));
    } else {
        let h = map_head(e.fields.len() as u64);
        let b = entries_bytes(e.fields);
        assert(input =~= (a + u + m) + h + b);
        lemma_map_round_trip(a + u + m, e.fields.len() as u64, b);
        assert(input =~= (a + u + m + h) + b + Seq::<u8>::empty());
        lemma_entries_round_trip(a + u + m + h, e.fields, Seq::empty());
        lemma_collect_sorted(e.fields);
        assert(fields_at(input, at3) == Some(e.fields));
    }
}

} // verus!
