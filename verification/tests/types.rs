use std::borrow::Cow;

use chromist::types::{Binary, BuildError, CallId, CdpError, Method};

#[test]
fn binary_roundtrip() {
    let original = Binary::from_bytes(b"hello".to_vec());
    let serialized = serde_json::to_string(&original.to_base64()).expect("serialize");
    let text: String = serde_json::from_str(&serialized).expect("deserialize");
    let deserialized = Binary::from_base64(&text).expect("decode");
    assert_eq!(deserialized.as_bytes(), b"hello");
}

#[test]
fn binary_roundtrip_edge_cases() {
    for bytes in [Vec::new(), vec![0u8], vec![0xff], (0u8..=255).collect(), vec![0u8; 1024]] {
        let original = Binary::from_bytes(bytes.clone());
        let serialized = serde_json::to_string(&original.to_base64()).expect("serialize");
        let text: String = serde_json::from_str(&serialized).expect("deserialize");
        let deserialized = Binary::from_base64(&text).expect("decode");
        assert_eq!(deserialized.as_bytes(), bytes.as_slice());
    }
}

#[test]
fn binary_decode_rejects_invalid_base64() {
    let text: String = serde_json::from_str(r#""not!valid!base64!""#).expect("a JSON string");
    let result = Binary::from_base64(&text);
    assert!(result.is_err(), "invalid base64 must fail deserialize");
}

#[test]
fn binary_wire_form_is_standard_base64() {
    assert_eq!(Binary::from_bytes(b"hello".to_vec()).to_base64(), "aGVsbG8=");
    assert_eq!(Binary::from_bytes(vec![]).to_base64(), "");
    assert_eq!(Binary::from_bytes(b"hello".to_vec()).into_bytes(), b"hello".to_vec());
}

#[test]
fn build_error_display() {
    let err = BuildError::new("target_id");
    assert_eq!(err.to_display_string(), "mandatory field `target_id` was not set");
}

#[test]
fn cdp_error_constructor() {
    let err = CdpError::new(-32601, "method not found");
    assert_eq!(err.code, -32601);
    assert_eq!(err.message, "method not found");
}

#[test]
fn cdp_error_display() {
    let err = CdpError::new(-32601, "method not found");
    assert_eq!(err.to_display_string(), "CDP error -32601 — method not found");
}

struct PageNavigate;
impl Method for PageNavigate {
    fn identifier(&self) -> Cow<'static, str> {
        Cow::Borrowed("Page.navigate")
    }
}

#[test]
fn test_method_domain() {
    assert_eq!(PageNavigate.domain(), Some("Page"));
}

#[test]
fn test_method_name() {
    assert_eq!(PageNavigate.method_name(), Some("navigate"));
}

#[test]
fn test_call_id_ordering() {
    assert!(CallId::new(1) < CallId::new(2));
    assert!(CallId::new(10) > CallId::new(5));
    assert_eq!(CallId::new(3), CallId::new(3));
}

#[test]
fn call_id_from_usize() {
    let id = CallId::from(7usize);
    assert_eq!(id.get(), 7);
    assert_eq!(id.to_display_string(), "7");
}

#[test]
fn method_without_dot_falls_back_to_full_identifier() {
    struct NoDot;
    impl Method for NoDot {
        fn identifier(&self) -> Cow<'static, str> {
            Cow::Borrowed("bareMethod")
        }
    }
    assert_eq!(NoDot.domain(), Some("bareMethod"));
    assert_eq!(NoDot.method_name(), Some("bareMethod"));
}

#[test]
fn owned_identifier_returns_none_for_domain() {
    struct DynEvent(String);
    impl Method for DynEvent {
        fn identifier(&self) -> Cow<'static, str> {
            Cow::Owned(self.0.clone())
        }
    }
    assert_eq!(DynEvent("Page.navigate".into()).domain(), None);
    assert_eq!(DynEvent("Page.navigate".into()).method_name(), None);
}

#[test]
fn method_name_keeps_text_after_first_dot() {
    struct Nested;
    impl Method for Nested {
        fn identifier(&self) -> Cow<'static, str> {
            Cow::Borrowed("Target.attach.toTarget")
        }
    }
    assert_eq!(Nested.domain(), Some("Target"));
    assert_eq!(Nested.method_name(), Some("attach.toTarget"));
}
