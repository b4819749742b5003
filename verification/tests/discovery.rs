use chromist::discovery::{discovery_request, endpoint_parts, json_in_reply, version_endpoint};

#[test]
fn version_endpoints_for_addresses_and_urls() {
    assert_eq!(version_endpoint("127.0.0.1:9222"), "http://127.0.0.1:9222/json/version");
    assert_eq!(version_endpoint("http://localhost:9222/"), "http://localhost:9222/json/version");
    assert_eq!(version_endpoint("https://remote.test//"), "https://remote.test/json/version");
}

#[test]
fn endpoint_urls_split_into_host_and_path() {
    assert_eq!(
        endpoint_parts("http://127.0.0.1:9222/json/version"),
        ("127.0.0.1:9222".to_string(), "/json/version".to_string())
    );
    assert_eq!(endpoint_parts("https://host:1"), ("host:1".to_string(), String::new()));
    assert_eq!(endpoint_parts("http://http://h/p"), ("h".to_string(), "/p".to_string()));
}

#[test]
fn discovery_request_is_http_1_0_with_close() {
    assert_eq!(
        discovery_request("/json/version", "127.0.0.1:9222"),
        "GET /json/version HTTP/1.0\r\nHost: 127.0.0.1:9222\r\nConnection: close\r\n\r\n"
    );
}

#[test]
fn the_json_answer_starts_at_the_first_brace() {
    assert_eq!(
        json_in_reply("HTTP/1.1 200 OK\r\nContent-Type: application/json\r\n\r\n{\"a\":{\"b\":1}}"),
        Some("{\"a\":{\"b\":1}}".to_string())
    );
    assert_eq!(json_in_reply("HTTP/1.1 404 Not Found\r\n\r\n"), None);
}
