use std::collections::HashMap;

use chromist::api::{cookie_origin, resolve_url, APIResponse};

#[test]
fn response_body_text_and_status() {
    let r = APIResponse::new(201, HashMap::new(), "héllo".as_bytes().to_vec());
    assert_eq!(r.body(), "héllo".as_bytes());
    assert_eq!(r.text().unwrap(), "héllo");
    assert!(r.ok());
    let bad = APIResponse::new(404, HashMap::new(), vec![0xff, 0xfe]);
    assert!(bad.text().is_err());
    assert!(!bad.ok());
}

#[test]
fn relative_urls_join_the_base_with_one_slash() {
    assert_eq!(resolve_url(Some("https://api.example.com/"), "/v1/items"), "https://api.example.com/v1/items");
    assert_eq!(resolve_url(Some("https://api.example.com"), "v1/items"), "https://api.example.com/v1/items");
    assert_eq!(resolve_url(Some("https://api.example.com//"), "//v1"), "https://api.example.com/v1");
    assert_eq!(resolve_url(Some("https://api.example.com"), "http://other.test/x"), "http://other.test/x");
    assert_eq!(resolve_url(Some("https://api.example.com"), "https://other.test/x"), "https://other.test/x");
    assert_eq!(resolve_url(None, "/v1/items"), "/v1/items");
}

#[test]
fn cookies_are_filed_under_their_origin() {
    assert_eq!(cookie_origin(true, ".example.com"), "https://example.com");
    assert_eq!(cookie_origin(false, "example.com"), "http://example.com");
}
