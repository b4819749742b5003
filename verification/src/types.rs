//! Core CDP wire values: call identifiers, builder errors, browser-reported
//! errors, base64 byte buffers and the method-naming traits.

use std::borrow::Cow;
use std::sync::Arc;

use base64::Engine;
use vstd::prelude::*;
use vstd::std_specs::convert::FromSpecImpl;
use vstd::string::StrSliceExecFns;

use crate::num::{decimal, i64_to_decimal, u64_to_decimal};
use crate::text::{find, find_char_from, lemma_find, push_str};

verus! {

// ---------------------------------------------------------------------------
// BuildError
// ---------------------------------------------------------------------------

/// Error returned by generated builder `build()` methods when a mandatory
/// field was not set before calling `build()`.
#[derive(Debug)]
pub struct BuildError {
    /// Name of the mandatory field that was not set.
    pub field: &'static str,
}

/// The message of a `BuildError` naming `field`.
pub open spec fn build_error_text(field: Seq<char>) -> Seq<char> {
    "mandatory field `"@ + field + "` was not set"@
}

impl BuildError {
    /// A `BuildError` naming the missing field.
    pub fn new(field: &'static str) -> (e: Self)
        ensures
            e.field@ == field@,
    {
        BuildError { field }
    }

    /// The error message: ``mandatory field `<field>` was not set``.
    pub fn to_display_string(&self) -> (s: String)
        ensures
            s@ == build_error_text(self.field@),
    {
        let mut s = "mandatory field `".to_owned();
        push_str(&mut s, self.field);
        push_str(&mut s, "` was not set");
        proof {
            reveal_strlit("mandatory field `");
            reveal_strlit("` was not set");
        }
        s
    }
}

// ---------------------------------------------------------------------------
// CallId
// ---------------------------------------------------------------------------

/// Monotonically increasing identifier that correlates a method call with
/// its response.
#[derive(Debug, Clone, Copy, PartialEq, Eq, Ord, Hash, Structural)]
pub struct CallId(pub usize);

impl CallId {
    /// A `CallId` holding the raw counter value `id`.
    pub fn new(id: usize) -> (c: Self)
        ensures
            c.0 == id,
    {
        CallId(id)
    }

    /// The underlying counter value.
    pub fn get(self) -> (v: usize)
        ensures
            v == self.0,
    {
        self.0
    }

    /// The counter value in decimal.
    pub fn to_display_string(&self) -> (s: String)
        ensures
            s@ == decimal(self.0 as nat),
    {
        u64_to_decimal(self.0 as u64)
    }
}

impl From<usize> for CallId {
    fn from(v: usize) -> (c: CallId) {
        CallId(v)
    }
}

impl FromSpecImpl<usize> for CallId {
    open spec fn obeys_from_spec() -> bool {
        true
    }

    open spec fn from_spec(v: usize) -> CallId {
        CallId(v)
    }
}

// ---------------------------------------------------------------------------
// Browser-reported errors
// ---------------------------------------------------------------------------

/// An error returned by the browser in response to a method call.
#[derive(Debug, Clone)]
pub struct CdpError {
    /// JSON-RPC error code (negative; e.g. `-32601` for method-not-found).
    pub code: i64,
    /// Human-readable error message from the browser.
    pub message: String,
}

/// The decimal rendering of a signed integer.
pub open spec fn signed_decimal(n: int) -> Seq<char> {
    if n < 0 {
        seq!['-'] + decimal((-n) as nat)
    } else {
        decimal(n as nat)
    }
}

/// The message of a browser-reported error.
pub open spec fn wire_error_text(code: int, message: Seq<char>) -> Seq<char> {
    "CDP error "@ + signed_decimal(code) + " — "@ + message
}

impl CdpError {
    /// A browser error with the given code and message.
    pub fn new(code: i64, message: &str) -> (e: Self)
        ensures
            e.code == code,
            e.message@ == message@,
    {
        CdpError { code, message: message.to_owned() }
    }

    /// The error message: `CDP error <code> — <message>`.
    pub fn to_display_string(&self) -> (s: String)
        ensures
            s@ == wire_error_text(self.code as int, self.message@),
    {
        let mut s = "CDP error ".to_owned();
        let c = i64_to_decimal(self.code);
        push_str(&mut s, c.as_str());
        push_str(&mut s, " — ");
        push_str(&mut s, self.message.as_str());
        proof {
            reveal_strlit("CDP error ");
            reveal_strlit(" — ");
        }
        s
    }
}

/// A typed command response: the correlation id, the decoded result and the
/// session that scoped the call, if any.
#[derive(Debug, Clone)]
pub struct CommandResponse<T> {
    /// Correlation id matching the originating call.
    pub id: CallId,
    /// Decoded result payload.
    pub result: T,
    /// Session id that scoped the original call, if any.
    pub session_id: Option<Arc<str>>,
}

// ---------------------------------------------------------------------------
// Binary
// ---------------------------------------------------------------------------

/// The standard (padded) base64 text of `bytes`.
pub uninterp spec fn base64_text(bytes: Seq<u8>) -> Seq<char>;

/// The bytes that standard base64 decoding gives for `text`, or `None`
/// where `text` is not valid standard base64.
pub uninterp spec fn base64_bytes(text: Seq<char>) -> Option<Seq<u8>>;

/// Standard padded base64 encoding (`base64::engine::general_purpose::STANDARD.encode`).
///
/// Trusted: the result is the encoding named by `base64_text`, and it
/// decodes back to the encoded bytes (the crate's round-trip property). The
/// engine panics when the output length overflows `usize`, which the bound
/// on the input length rules out.
#[verifier::external_body]
pub(crate) fn encode_base64(bytes: &[u8]) -> (s: String)
    requires
        bytes@.len() <= isize::MAX,
    ensures
        s@ == base64_text(bytes@),
        base64_bytes(s@) == Some(bytes@),
{
    base64::engine::general_purpose::STANDARD.encode(bytes)
}

/// Standard padded base64 decoding (`base64::engine::general_purpose::STANDARD.decode`).
///
/// Trusted: success and the bytes are those named by `base64_bytes`. The
/// decode error is passed on as it came.
#[verifier::external_body]
fn decode_base64(text: &str) -> (r: Result<Vec<u8>, base64::DecodeError>)
    ensures
        r is Ok <==> base64_bytes(text@) is Some,
        r matches Ok(v) ==> base64_bytes(text@) == Some(v@),
{
    base64::engine::general_purpose::STANDARD.decode(text.as_bytes())
}

/// A byte buffer that travels over the wire as a base64 string.
#[derive(Debug, Clone, PartialEq, Eq)]
pub struct Binary(pub Vec<u8>);

impl Binary {
    /// Wrap a byte vector.
    pub fn from_bytes(bytes: Vec<u8>) -> (b: Self)
        ensures
            b.0@ == bytes@,
    {
        Binary(bytes)
    }

    /// Borrow the raw bytes.
    pub fn as_bytes(&self) -> (s: &[u8])
        ensures
            s@ == self.0@,
    {
        self.0.as_slice()
    }

    /// Unwrap into the inner byte vector.
    pub fn into_bytes(self) -> (v: Vec<u8>)
        ensures
            v@ == self.0@,
    {
        self.0
    }

    /// The wire form: the bytes as standard padded base64. Reading it back
    /// gives the same bytes.
    pub fn to_base64(&self) -> (s: String)
        requires
            self.0@.len() <= isize::MAX,
        ensures
            s@ == base64_text(self.0@),
            base64_bytes(s@) == Some(self.0@),
    {
        encode_base64(self.0.as_slice())
    }

    /// Read the wire form: standard padded base64 text, or the decoding
    /// error.
    pub fn from_base64(text: &str) -> (r: Result<Binary, base64::DecodeError>)
        ensures
            match r {
                Ok(b) => base64_bytes(text@) == Some(b.0@),
                Err(_) => base64_bytes(text@) is None,
            },
    {
        match decode_base64(text) {
            Ok(v) => Ok(Binary(v)),
            Err(e) => Err(e),
        }
    }
}

#[verifier::external_type_specification]
#[verifier::external_body]
pub struct ExDecodeError(base64::DecodeError);

// ---------------------------------------------------------------------------
// Method naming
// ---------------------------------------------------------------------------

/// The domain part of a method identifier: everything before the first `.`,
/// or the whole identifier when it has none.
pub open spec fn identifier_domain_spec(id: Seq<char>) -> Seq<char> {
    match find(id, seq!['.']) {
        Some(i) => id.take(i),
        None => id,
    }
}

/// The method-name part of a method identifier: everything after the first
/// `.`, or the whole identifier when it has none.
pub open spec fn identifier_method_spec(id: Seq<char>) -> Seq<char> {
    match find(id, seq!['.']) {
        Some(i) => id.skip(i + 1),
        None => id,
    }
}

/// The position of the first `.` in `s`.
fn first_dot(s: &str) -> (r: Option<usize>)
    ensures
        match r {
            Some(i) => find(s@, seq!['.']) == Some(i as int) && i < s@.len(),
            None => find(s@, seq!['.']) is None,
        },
{
    let v = crate::text::chars_of(s);
    let r = find_char_from(v.as_slice(), '.', 0);
    assert(v@.skip(0) =~= s@);
    r
}

/// The domain part of a static identifier; `None` for an owned one.
pub fn identifier_domain(id: Cow<'static, str>) -> (r: Option<&'static str>)
    ensures
        match id {
            Cow::Borrowed(s) => r matches Some(d) && d@ == identifier_domain_spec(s@),
            Cow::Owned(_) => r is None,
        },
{
    match id {
        Cow::Borrowed(s) => match first_dot(s) {
            Some(i) => Some(s.substring_char(0, i)),
            None => Some(s),
        },
        Cow::Owned(_) => None,
    }
}

/// The method-name part of a static identifier; `None` for an owned one.
pub fn identifier_method_name(id: Cow<'static, str>) -> (r: Option<&'static str>)
    ensures
        match id {
            Cow::Borrowed(s) => r matches Some(d) && d@ == identifier_method_spec(s@),
            Cow::Owned(_) => r is None,
        },
{
    match id {
        Cow::Borrowed(s) => match first_dot(s) {
            Some(i) => {
                let n = s.unicode_len();
                Some(s.substring_char(i + 1, n))
            },
            None => Some(s),
        },
        Cow::Owned(_) => None,
    }
}

/// Splitting a static identifier at its first `.` and joining the parts
/// with a `.` gives the identifier back.
pub proof fn law_identifier_split_rejoins(id: Seq<char>)
    requires
        find(id, seq!['.']) is Some,
    ensures
        identifier_domain_spec(id) + seq!['.'] + identifier_method_spec(id) == id,
{
    lemma_find(id, seq!['.']);
    let i = find(id, seq!['.'])->0;
    assert(id.subrange(i, i + 1)[0] == id[i]);
    assert(id.take(i) + seq!['.'] + id.skip(i + 1) =~= id);
}

/// The domain part of a method identifier, when the identifier is a static
/// string.
pub open spec fn static_domain(id: Cow<'static, str>) -> Option<Seq<char>> {
    match id {
        Cow::Borrowed(s) => Some(identifier_domain_spec(s@)),
        Cow::Owned(_) => None,
    }
}

/// The method-name part of a method identifier, when the identifier is a
/// static string.
pub open spec fn static_method_name(id: Cow<'static, str>) -> Option<Seq<char>> {
    match id {
        Cow::Borrowed(s) => Some(identifier_method_spec(s@)),
        Cow::Owned(_) => None,
    }
}

/// An optional string slice as text.
pub open spec fn opt_text(o: Option<&str>) -> Option<Seq<char>> {
    match o {
        Some(s) => Some(s@),
        None => None,
    }
}

/// Any type that represents a CDP method (command or event).
pub trait Method {
    /// The fully-qualified method identifier, e.g. `"Page.navigate"`.
    fn identifier(&self) -> Cow<'static, str>;

    /// The domain portion of the identifier (everything before the first
    /// `.`), or `None` when the identifier is not a static string.
    fn domain(&self) -> (r: Option<&str>)
        default_ensures
            exists|id: Cow<'static, str>| call_ensures(Self::identifier, (self,), id) && opt_text(r) == static_domain(id),
    {
        let id = self.identifier();
        let ghost g = id;
        assert(call_ensures(Self::identifier, (self,), g));
        let r = identifier_domain(id);
        assert(opt_text(r) == static_domain(g));
        r
    }

    /// The method-name portion of the identifier (everything after the
    /// first `.`), or `None` when the identifier is not a static string.
    fn method_name(&self) -> (r: Option<&str>)
        default_ensures
            exists|id: Cow<'static, str>| call_ensures(Self::identifier, (self,), id) && opt_text(r) == static_method_name(id),
    {
        let id = self.identifier();
        let ghost g = id;
        assert(call_ensures(Self::identifier, (self,), g));
        let r = identifier_method_name(id);
        assert(opt_text(r) == static_method_name(g));
        r
    }
}

/// Provides the static method identifier for a type.
pub trait MethodType {
    /// The fully-qualified method identifier for this type.
    fn method_id() -> Cow<'static, str> where Self: Sized;
}

/// A CDP event message: something that arrives unsolicited from the browser.
pub trait EventMessage: Method {

}

} // verus!
