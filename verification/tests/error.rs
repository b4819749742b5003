use base64::Engine as _;
use chromist::error::{CdpError, ErrorKind};
use chromist::evaluate::ExceptionDetails;

#[test]
fn test_display_messages() {
    let e = CdpError::Timeout;
    assert_eq!(e.to_display_string(), "Timeout");

    let e = CdpError::ChannelClosed;
    assert_eq!(e.to_display_string(), "Channel closed");

    let e = CdpError::NotFound;
    assert_eq!(e.to_display_string(), "Not found");

    let e = CdpError::UnsupportedTransport("pipe transport is only supported on Unix");
    assert!(e.to_display_string().contains("pipe transport"));

    let e = CdpError::NavigationFailed { reason: "net::ERR_ABORTED".into() };
    assert!(e.to_display_string().contains("net::ERR_ABORTED"));

    let e = CdpError::InvalidPath("/tmp/x".into());
    assert!(e.to_display_string().contains("/tmp/x"));

    let e = CdpError::MissingObjectId;
    assert_eq!(e.to_display_string(), "Resolved node has no objectId");

    let e = CdpError::NoChildProcess;
    assert_eq!(e.to_display_string(), "No child process");

    let e = CdpError::HttpDiscovery { host: "localhost:9222".into(), reason: "connection refused".into() };
    assert!(e.to_display_string().contains("localhost:9222"));
    assert!(e.to_display_string().contains("connection refused"));

    let e = CdpError::Cdp { code: -32000, message: "oops".to_string() };
    assert_eq!(e.to_display_string(), "CDP protocol error: -32000 oops");
}

#[test]
fn test_from_serde_json_error() {
    let err = serde_json::from_str::<i32>("bad").unwrap_err();
    let result: Result<i32, CdpError> = Err(CdpError::from(err));
    assert!(matches!(result, Err(CdpError::Json(_))));
}

#[test]
fn from_wire_cdp_error() {
    let wire = chromist::types::CdpError::new(-32602, "invalid params");
    let e: CdpError = wire.into();
    match e {
        CdpError::Cdp { code, message } => {
            assert_eq!(code, -32602);
            assert_eq!(message, "invalid params");
        }
        other => panic!("expected Cdp, got {:?}", other),
    }
}

#[test]
fn from_io_error() {
    let io = std::io::Error::new(std::io::ErrorKind::NotFound, "missing");
    let e: CdpError = io.into();
    assert!(matches!(e, CdpError::Io(_)));
    assert!(e.to_display_string().contains("missing"));
}

#[test]
fn from_base64_decode_error() {
    let err = base64::engine::general_purpose::STANDARD.decode("!!!").unwrap_err();
    let e: CdpError = err.into();
    assert!(matches!(e, CdpError::Decode(_)));
}

#[test]
fn launch_exit_and_timeout_display_contains_stderr() {
    let e = CdpError::LaunchExit { exit_status: "signal: 9".into(), stderr: "killed".into() };
    let s = e.to_display_string();
    assert!(s.contains("signal: 9"));
    assert!(s.contains("killed"));

    let e = CdpError::LaunchTimeout { stderr: "no ws url".into() };
    assert!(e.to_display_string().contains("no ws url"));
}

#[test]
fn invalid_message_display_includes_raw() {
    let err = serde_json::from_str::<i32>("bad").unwrap_err();
    let e = CdpError::InvalidMessage("{malformed}".into(), err);
    let s = e.to_display_string();
    assert!(s.contains("{malformed}"));
}

#[test]
fn frame_not_found_display_contains_id() {
    let e = CdpError::FrameNotFound("frame-123".into());
    assert!(e.to_display_string().contains("frame-123"));
}

#[test]
fn error_kind_retry_variants() {
    assert_eq!(CdpError::NotFound.kind(), ErrorKind::Retry);
    assert_eq!(CdpError::MissingObjectId.kind(), ErrorKind::Retry);
    assert_eq!(CdpError::ScrollingFailed("x".into()).kind(), ErrorKind::Retry);
    assert_eq!(CdpError::Cdp { code: -32000, message: String::new() }.kind(), ErrorKind::Retry);
    assert_eq!(CdpError::Cdp { code: -32001, message: String::new() }.kind(), ErrorKind::Retry);
}

#[test]
fn error_kind_fatal_variants() {
    assert_eq!(CdpError::ChannelClosed.kind(), ErrorKind::Fatal);
    assert_eq!(CdpError::Timeout.kind(), ErrorKind::Fatal);
    assert_eq!(
        CdpError::LaunchExit { exit_status: String::new(), stderr: String::new() }.kind(),
        ErrorKind::Fatal
    );
    assert_eq!(CdpError::NoChildProcess.kind(), ErrorKind::Fatal);
}

#[test]
fn error_kind_strict_variants() {
    assert_eq!(CdpError::LockPoisoned.kind(), ErrorKind::Strict);
    assert_eq!(CdpError::UnsupportedTransport("pipe").kind(), ErrorKind::Strict);
    assert_eq!(CdpError::InvalidPath("/x".into()).kind(), ErrorKind::Strict);
    assert_eq!(CdpError::NavigationFailed { reason: "net::ERR_ABORTED".into() }.kind(), ErrorKind::Retry);
    assert_eq!(CdpError::Cdp { code: -32602, message: String::new() }.kind(), ErrorKind::Strict);
    assert!(CdpError::NotFound.is_retryable());
    assert!(!CdpError::ChannelClosed.is_retryable());
}

#[test]
fn response_not_ready_is_retry() {
    assert_eq!(CdpError::ResponseNotReady.kind(), ErrorKind::Retry);
}

#[test]
fn response_not_ready_display() {
    assert!(CdpError::ResponseNotReady.to_display_string().contains("finished loading"));
}

#[test]
fn launch_not_found_is_strict() {
    assert_eq!(CdpError::LaunchNotFound.kind(), ErrorKind::Strict);
    assert!(CdpError::LaunchNotFound.to_display_string().contains("not found"));
}

#[test]
fn launch_spawn_error_is_fatal() {
    let e = CdpError::LaunchSpawnError {
        source: std::io::Error::new(std::io::ErrorKind::NotFound, "no such file"),
    };
    assert_eq!(e.kind(), ErrorKind::Fatal);
    assert!(e.to_display_string().contains("spawn"));
}

#[test]
fn launch_pipe_error_is_fatal() {
    let e = CdpError::LaunchPipeError { source: std::io::Error::other("too many open files") };
    assert_eq!(e.kind(), ErrorKind::Fatal);
    assert!(e.to_display_string().contains("pipe()"));
}

#[test]
fn other_cdp_codes_are_fatal() {
    assert_eq!(CdpError::Cdp { code: -32601, message: String::new() }.kind(), ErrorKind::Fatal);
}

#[test]
fn javascript_exception_display() {
    let e = CdpError::JavascriptException(Box::new(ExceptionDetails {
        text: "Uncaught".into(),
        line_number: 3,
        column_number: 14,
    }));
    assert_eq!(e.to_display_string(), "JavaScript exception at 3:14 — Uncaught");
    assert_eq!(e.kind(), ErrorKind::Strict);
}
