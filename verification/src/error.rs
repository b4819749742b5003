//! The library's error type, its classification for retry decisions, and
//! its messages.

use vstd::prelude::*;
use vstd::std_specs::convert::FromSpecImpl;

use crate::evaluate::ExceptionDetails;
use crate::num::{decimal, i64_to_decimal};
use crate::text::push_str;
use crate::types::signed_decimal;

verus! {

#[verifier::external_type_specification]
#[verifier::external_body]
pub struct ExIoError(std::io::Error);

#[verifier::external_type_specification]
#[verifier::external_body]
pub struct ExJsonError(serde_json::Error);

#[verifier::external_type_specification]
#[verifier::external_body]
pub struct ExWebSocketError(async_tungstenite::tungstenite::Error);

/// Coarse classification of an error for retry/abort decisions.
#[derive(Debug, Clone, Copy, PartialEq, Eq, Structural)]
pub enum ErrorKind {
    /// Transient: re-resolving the element or execution context may succeed.
    Retry,
    /// Connection-level failure: the browser is gone; abort the operation.
    Fatal,
    /// Caller contract violation: surface immediately, never swallow.
    Strict,
}

/// Every fallible operation of the library returns this error.
#[derive(Debug)]
pub enum CdpError {
    /// WebSocket transport error.
    WebSocket(Box<async_tungstenite::tungstenite::Error>),
    /// JSON (de)serialisation failure.
    Json(serde_json::Error),
    /// Protocol-level error: the browser reported a code and a message.
    Cdp { code: i64, message: String },
    /// A command, navigation or wait exceeded its deadline.
    Timeout,
    /// No Chrome/Chromium executable was found.
    LaunchNotFound,
    /// The requested transport is not supported on this platform.
    UnsupportedTransport(&'static str),
    /// The browser rejected a navigation.
    NavigationFailed { reason: String },
    /// A filesystem path was not valid UTF-8 where that is required.
    InvalidPath(String),
    /// Setting up the OS-pipe transport failed.
    LaunchPipeError { source: std::io::Error },
    /// Spawning the browser process failed.
    LaunchSpawnError { source: std::io::Error },
    /// The browser exited before it printed its WebSocket URL.
    LaunchExit { exit_status: String, stderr: String },
    /// The browser's WebSocket URL did not arrive in time.
    LaunchTimeout { stderr: String },
    /// Any other I/O error.
    Io(std::io::Error),
    /// The connection is closed; no further call will complete.
    ChannelClosed,
    /// A script threw.
    JavascriptException(Box<ExceptionDetails>),
    /// An element, target or frame did not exist.
    NotFound,
    /// A resolved DOM node had no object handle (it was detached).
    MissingObjectId,
    /// There is no browser process (killed or never started).
    NoChildProcess,
    /// Reaching the browser's DevTools HTTP endpoint failed.
    HttpDiscovery { host: String, reason: String },
    /// An element could not be scrolled into view.
    ScrollingFailed(String),
    /// A frame id that is no longer in the page's frame tree.
    FrameNotFound(String),
    /// A URL did not parse: the parser's message.
    Url(String),
    /// Base64 decoding failed.
    Decode(base64::DecodeError),
    /// A browser message that could not be deserialized: its text and why.
    InvalidMessage(String, serde_json::Error),
    /// An internal lock was poisoned by an earlier panic.
    LockPoisoned,
    /// A selector matched more than one element in strict mode.
    StrictViolation,
    /// An HTTP method name that is not valid.
    InvalidMethod(String),
    /// An HTTP request outside the protocol failed.
    RequestFailed(String),
    /// An HTTP response has not finished loading.
    ResponseNotReady,
    /// The default browser context cannot be closed.
    CannotCloseDefaultContext,
}

/// The class of an error: detached nodes, missing frames, failed scrolls
/// and navigations, unfinished responses and the browser's transient codes
/// `-32000` and `-32001` may succeed on retry; connection and launch
/// failures and timeouts are fatal; the rest, and the invalid-params code
/// `-32602`, are caller errors.
pub open spec fn kind_of(e: CdpError) -> ErrorKind {
    match e {
        CdpError::NotFound | CdpError::MissingObjectId | CdpError::FrameNotFound(_)
        | CdpError::ScrollingFailed(_) | CdpError::ResponseNotReady | CdpError::NavigationFailed {
            ..
        } => ErrorKind::Retry,
        CdpError::Cdp { code, .. } => if code == -32000 || code == -32001 {
            ErrorKind::Retry
        } else if code == -32602 {
            ErrorKind::Strict
        } else {
            ErrorKind::Fatal
        },
        CdpError::WebSocket(_) | CdpError::Io(_) | CdpError::ChannelClosed | CdpError::Timeout
        | CdpError::LaunchExit { .. } | CdpError::LaunchTimeout { .. }
        | CdpError::LaunchPipeError { .. } | CdpError::LaunchSpawnError { .. }
        | CdpError::NoChildProcess => ErrorKind::Fatal,
        _ => ErrorKind::Strict,
    }
}

/// The message of an error. `inner` stands for the message of the wrapped
/// outside error, where the variant wraps one.
pub open spec fn error_text(e: CdpError, inner: Seq<char>) -> Seq<char> {
    match e {
        CdpError::WebSocket(_) => "WebSocket error: "@ + inner,
        CdpError::Json(_) => "JSON error: "@ + inner,
        CdpError::Cdp { code, message } => "CDP protocol error: "@ + signed_decimal(code as int)
            + " "@ + message@,
        CdpError::Timeout => "Timeout"@,
        CdpError::LaunchNotFound => "Chrome/Chromium executable not found"@,
        CdpError::UnsupportedTransport(t) => "unsupported transport: "@ + t@,
        CdpError::NavigationFailed { reason } => "navigation failed: "@ + reason@,
        CdpError::InvalidPath(p) => "invalid path (not valid UTF-8): "@ + p@,
        CdpError::LaunchPipeError { .. } => "pipe() syscall failed: "@ + inner,
        CdpError::LaunchSpawnError { .. } => "failed to spawn Chrome: "@ + inner,
        CdpError::LaunchExit { exit_status, stderr } => "Browser exited during launch (status="@
            + exit_status@ + "): "@ + stderr@,
        CdpError::LaunchTimeout { stderr } => "Timeout waiting for browser WebSocket URL: "@
            + stderr@,
        CdpError::Io(_) => "IO error: "@ + inner,
        CdpError::ChannelClosed => "Channel closed"@,
        CdpError::JavascriptException(d) => "JavaScript exception at "@ + signed_decimal(
            d.line_number as int,
        ) + ":"@ + signed_decimal(d.column_number as int) + " — "@ + d.text@,
        CdpError::NotFound => "Not found"@,
        CdpError::MissingObjectId => "Resolved node has no objectId"@,
        CdpError::NoChildProcess => "No child process"@,
        CdpError::HttpDiscovery { host, reason } => "DevTools HTTP discovery error ("@ + host@
            + "): "@ + reason@,
        CdpError::ScrollingFailed(s) => "Scrolling failed: "@ + s@,
        CdpError::FrameNotFound(id) => "Frame not found: "@ + id@,
        CdpError::Url(m) => "URL parse error: "@ + m@,
        CdpError::Decode(_) => "Decode error: "@ + inner,
        CdpError::InvalidMessage(raw, _) => "Invalid CDP message '"@ + raw@ + "': "@ + inner,
        CdpError::LockPoisoned => "Internal lock poisoned"@,
        CdpError::StrictViolation => "Strict mode: selector matched more than one element"@,
        CdpError::InvalidMethod(m) => "Invalid HTTP method: "@ + m@,
        CdpError::RequestFailed(m) => "HTTP request failed: "@ + m@,
        CdpError::ResponseNotReady => "HTTP response has not yet finished loading"@,
        CdpError::CannotCloseDefaultContext =>
            "cannot close the default browser context; close the browser instead"@,
    }
}

/// The message of a `std::io::Error` (its `Display`).
///
/// Trusted: nothing is claimed of the text.
#[verifier::external_body]
pub(crate) fn io_error_text(e: &std::io::Error) -> String {
    e.to_string()
}

/// The message of a `serde_json::Error` (its `Display`).
///
/// Trusted: nothing is claimed of the text.
#[verifier::external_body]
fn json_error_text(e: &serde_json::Error) -> String {
    e.to_string()
}

/// The message of a `base64::DecodeError` (its `Display`).
///
/// Trusted: nothing is claimed of the text.
#[verifier::external_body]
fn decode_error_text(e: &base64::DecodeError) -> String {
    e.to_string()
}

/// The message of a `tungstenite::Error` (its `Display`).
///
/// Trusted: nothing is claimed of the text.
#[verifier::external_body]
fn websocket_error_text(e: &async_tungstenite::tungstenite::Error) -> String {
    e.to_string()
}

fn prefixed(prefix: &str, rest: &str) -> (s: String)
    ensures
        s@ == prefix@ + rest@,
{
    let mut s = prefix.to_owned();
    push_str(&mut s, rest);
    s
}

impl CdpError {
    /// Classify this error for retry/abort decisions.
    pub fn kind(&self) -> (k: ErrorKind)
        ensures
            k == kind_of(*self),
    {
        match self {
            CdpError::NotFound | CdpError::MissingObjectId | CdpError::FrameNotFound(_) => {
                ErrorKind::Retry
            },
            CdpError::ScrollingFailed(_) | CdpError::ResponseNotReady
            | CdpError::NavigationFailed { .. } => ErrorKind::Retry,
            CdpError::Cdp { code, .. } => {
                if *code == -32000 || *code == -32001 {
                    ErrorKind::Retry
                } else if *code == -32602 {
                    ErrorKind::Strict
                } else {
                    ErrorKind::Fatal
                }
            },
            CdpError::WebSocket(_) | CdpError::Io(_) | CdpError::ChannelClosed | CdpError::Timeout
            | CdpError::LaunchExit { .. } | CdpError::LaunchTimeout { .. }
            | CdpError::LaunchPipeError { .. } | CdpError::LaunchSpawnError { .. }
            | CdpError::NoChildProcess => ErrorKind::Fatal,
            CdpError::LockPoisoned | CdpError::JavascriptException(_) | CdpError::Json(_)
            | CdpError::Decode(_) | CdpError::InvalidMessage(_, _) | CdpError::LaunchNotFound
            | CdpError::UnsupportedTransport(_) | CdpError::InvalidPath(_) | CdpError::Url(_)
            | CdpError::HttpDiscovery { .. } | CdpError::StrictViolation
            | CdpError::InvalidMethod(_) | CdpError::RequestFailed(_)
            | CdpError::CannotCloseDefaultContext => ErrorKind::Strict,
        }
    }

    /// Whether retrying the operation, after re-resolving the element,
    /// might succeed.
    pub fn is_retryable(&self) -> (b: bool)
        ensures
            b == (kind_of(*self) == ErrorKind::Retry),
    {
        matches!(self.kind(), ErrorKind::Retry)
    }

    /// The error's message.
    pub fn to_display_string(&self) -> (s: String)
        ensures
            exists|inner: Seq<char>| s@ == error_text(*self, inner),
    {
        let ghost mut inner: Seq<char> = seq![];
        let s = match self {
            CdpError::WebSocket(e) => {
                let t = websocket_error_text(e);
                proof {
                    inner = t@;
                }
                prefixed("WebSocket error: ", t.as_str())
            },
            CdpError::Json(e) => {
                let t = json_error_text(e);
                proof {
                    inner = t@;
                }
                prefixed("JSON error: ", t.as_str())
            },
            CdpError::Cdp { code, message } => {
                let mut s = "CDP protocol error: ".to_owned();
                let c = i64_to_decimal(*code);
                push_str(&mut s, c.as_str());
                push_str(&mut s, " ");
                push_str(&mut s, message.as_str());
                s
            },
            CdpError::Timeout => "Timeout".to_owned(),
            CdpError::LaunchNotFound => "Chrome/Chromium executable not found".to_owned(),
            CdpError::UnsupportedTransport(t) => prefixed("unsupported transport: ", t),
            CdpError::NavigationFailed { reason } => prefixed(
                "navigation failed: ",
                reason.as_str(),
            ),
            CdpError::InvalidPath(p) => prefixed("invalid path (not valid UTF-8): ", p.as_str()),
            CdpError::LaunchPipeError { source } => {
                let t = io_error_text(source);
                proof {
                    inner = t@;
                }
                prefixed("pipe() syscall failed: ", t.as_str())
            },
            CdpError::LaunchSpawnError { source } => {
                let t = io_error_text(source);
                proof {
                    inner = t@;
                }
                prefixed("failed to spawn Chrome: ", t.as_str())
            },
            CdpError::LaunchExit { exit_status, stderr } => {
                let mut s = "Browser exited during launch (status=".to_owned();
                push_str(&mut s, exit_status.as_str());
                push_str(&mut s, "): ");
                push_str(&mut s, stderr.as_str());
                s
            },
            CdpError::LaunchTimeout { stderr } => prefixed(
                "Timeout waiting for browser WebSocket URL: ",
                stderr.as_str(),
            ),
            CdpError::Io(e) => {
                let t = io_error_text(e);
                proof {
                    inner = t@;
                }
                prefixed("IO error: ", t.as_str())
            },
            CdpError::ChannelClosed => "Channel closed".to_owned(),
            CdpError::JavascriptException(d) => {
                let mut s = "JavaScript exception at ".to_owned();
                let l = i64_to_decimal(d.line_number);
                push_str(&mut s, l.as_str());
                push_str(&mut s, ":");
                let c = i64_to_decimal(d.column_number);
                push_str(&mut s, c.as_str());
                push_str(&mut s, " — ");
                push_str(&mut s, d.text.as_str());
                s
            },
            CdpError::NotFound => "Not found".to_owned(),
            CdpError::MissingObjectId => "Resolved node has no objectId".to_owned(),
            CdpError::NoChildProcess => "No child process".to_owned(),
            CdpError::HttpDiscovery { host, reason } => {
                let mut s = "DevTools HTTP discovery error (".to_owned();
                push_str(&mut s, host.as_str());
                push_str(&mut s, "): ");
                push_str(&mut s, reason.as_str());
                s
            },
            CdpError::ScrollingFailed(m) => prefixed("Scrolling failed: ", m.as_str()),
            CdpError::FrameNotFound(id) => prefixed("Frame not found: ", id.as_str()),
            CdpError::Url(m) => prefixed("URL parse error: ", m.as_str()),
            CdpError::Decode(e) => {
                let t = decode_error_text(e);
                proof {
                    inner = t@;
                }
                prefixed("Decode error: ", t.as_str())
            },
            CdpError::InvalidMessage(raw, e) => {
                let t = json_error_text(e);
                proof {
                    inner = t@;
                }
                let mut s = "Invalid CDP message '".to_owned();
                push_str(&mut s, raw.as_str());
                push_str(&mut s, "': ");
                push_str(&mut s, t.as_str());
                s
            },
            CdpError::LockPoisoned => "Internal lock poisoned".to_owned(),
            CdpError::StrictViolation => "Strict mode: selector matched more than one element".to_owned(),
            CdpError::InvalidMethod(m) => prefixed("Invalid HTTP method: ", m.as_str()),
            CdpError::RequestFailed(m) => prefixed("HTTP request failed: ", m.as_str()),
            CdpError::ResponseNotReady => "HTTP response has not yet finished loading".to_owned(),
            CdpError::CannotCloseDefaultContext =>
                "cannot close the default browser context; close the browser instead".to_owned(),
        };
        assert(s@ == error_text(*self, inner));
        s
    }
}

impl From<serde_json::Error> for CdpError {
    fn from(e: serde_json::Error) -> (r: CdpError) {
        CdpError::Json(e)
    }
}

impl FromSpecImpl<serde_json::Error> for CdpError {
    open spec fn obeys_from_spec() -> bool {
        true
    }

    open spec fn from_spec(e: serde_json::Error) -> CdpError {
        CdpError::Json(e)
    }
}

impl From<std::io::Error> for CdpError {
    fn from(e: std::io::Error) -> (r: CdpError) {
        CdpError::Io(e)
    }
}

impl FromSpecImpl<std::io::Error> for CdpError {
    open spec fn obeys_from_spec() -> bool {
        true
    }

    open spec fn from_spec(e: std::io::Error) -> CdpError {
        CdpError::Io(e)
    }
}

impl From<base64::DecodeError> for CdpError {
    fn from(e: base64::DecodeError) -> (r: CdpError) {
        CdpError::Decode(e)
    }
}

impl FromSpecImpl<base64::DecodeError> for CdpError {
    open spec fn obeys_from_spec() -> bool {
        true
    }

    open spec fn from_spec(e: base64::DecodeError) -> CdpError {
        CdpError::Decode(e)
    }
}

impl From<async_tungstenite::tungstenite::Error> for CdpError {
    fn from(e: async_tungstenite::tungstenite::Error) -> (r: CdpError) {
        CdpError::WebSocket(Box::new(e))
    }
}

impl FromSpecImpl<async_tungstenite::tungstenite::Error> for CdpError {
    open spec fn obeys_from_spec() -> bool {
        true
    }

    open spec fn from_spec(e: async_tungstenite::tungstenite::Error) -> CdpError {
        CdpError::WebSocket(Box::new(e))
    }
}

impl From<crate::types::CdpError> for CdpError {
    fn from(e: crate::types::CdpError) -> (r: CdpError) {
        CdpError::Cdp { code: e.code, message: e.message }
    }
}

impl FromSpecImpl<crate::types::CdpError> for CdpError {
    open spec fn obeys_from_spec() -> bool {
        true
    }

    open spec fn from_spec(e: crate::types::CdpError) -> CdpError {
        CdpError::Cdp { code: e.code, message: e.message }
    }
}

} // verus!
