use chromist::har::{response_body, response_http_version, status_code, 
    cdp_headers_to_har, civil_from_days, headers_from_entries, content_type_from_headers, epoch_parts_to_iso8601, hex_digit, parse_query_string,
    percent_decode, protocol_to_http_version, HarHeader, HarLookup, HarNotFound, HarOptions, HarPlayback,
    HarPlaybackContent, HarPlaybackEntry, HarPlaybackRequest, HarPlaybackResponse, HarRecordingOptions,
};

#[test]
fn epoch_secs_to_iso8601_unix_epoch() {
    assert_eq!(epoch_parts_to_iso8601(0, 0), "1970-01-01T00:00:00.000Z");
}

#[test]
fn epoch_secs_to_iso8601_with_ms() {
    let secs = 1_705_314_645.123_f64;
    let whole = secs.floor() as i64;
    let ms = ((secs - secs.floor()) * 1000.0).round() as u32;
    assert_eq!(epoch_parts_to_iso8601(whole, ms), "2024-01-15T10:30:45.123Z");
}

#[test]
fn parse_query_string_basic() {
    let pairs = parse_query_string("https://example.com/path?foo=bar&baz=qux");
    assert_eq!(pairs.len(), 2);
    assert_eq!(pairs[0].name, "foo");
    assert_eq!(pairs[0].value, "bar");
    assert_eq!(pairs[1].name, "baz");
    assert_eq!(pairs[1].value, "qux");
}

#[test]
fn parse_query_string_empty() {
    let pairs = parse_query_string("https://example.com/path");
    assert!(pairs.is_empty());
}

#[test]
fn parse_query_string_with_fragment() {
    let pairs = parse_query_string("https://example.com/?key=val#section");
    assert_eq!(pairs.len(), 1);
    assert_eq!(pairs[0].name, "key");
    assert_eq!(pairs[0].value, "val");
}

#[test]
fn parse_query_string_skips_empty_pairs_and_decodes() {
    let pairs = parse_query_string("http://h/?a+b=c%26d&&flag&=v");
    assert_eq!(pairs.len(), 3);
    assert_eq!(pairs[0].name, "a b");
    assert_eq!(pairs[0].value, "c&d");
    assert_eq!(pairs[1].name, "flag");
    assert_eq!(pairs[1].value, "");
    assert_eq!(pairs[2].name, "");
    assert_eq!(pairs[2].value, "v");
}

#[test]
fn har_recorder_options_default() {
    let opts = HarRecordingOptions::default();
    assert!(opts.capture_body);
}

#[test]
fn percent_decode_plus_space() {
    assert_eq!(percent_decode("hello+world"), "hello world");
}

#[test]
fn percent_decode_encoded() {
    assert_eq!(percent_decode("hello%20world"), "hello world");
    assert_eq!(percent_decode("%41"), "A");
}

#[test]
fn percent_decode_invalid_escape_passthrough() {
    assert_eq!(percent_decode("%zz"), "%zz");
}

#[test]
fn percent_decode_short_escape_at_end_passes_through() {
    assert_eq!(percent_decode("ab%4"), "ab%4");
    assert_eq!(percent_decode("%"), "%");
}

#[test]
fn hex_digits() {
    assert_eq!(hex_digit(b'7'), Some(7));
    assert_eq!(hex_digit(b'b'), Some(11));
    assert_eq!(hex_digit(b'F'), Some(15));
    assert_eq!(hex_digit(b'g'), None);
}

#[test]
fn protocol_to_http_version_mapping() {
    assert_eq!(protocol_to_http_version("h2"), "HTTP/2.0");
    assert_eq!(protocol_to_http_version("h3"), "HTTP/3.0");
    assert_eq!(protocol_to_http_version("h3-29"), "HTTP/3.0");
    assert_eq!(protocol_to_http_version("http/1.0"), "HTTP/1.0");
    assert_eq!(protocol_to_http_version("http/1.1"), "HTTP/1.1");
    assert_eq!(protocol_to_http_version("unknown"), "HTTP/1.1");
}

#[test]
fn content_type_is_found_ignoring_case() {
    let hs = vec![
        HarHeader { name: "X-Foo".into(), value: "bar".into() },
        HarHeader { name: "content-TYPE".into(), value: "text/html".into() },
        HarHeader { name: "Content-Type".into(), value: "application/json".into() },
    ];
    assert_eq!(content_type_from_headers(&hs), "text/html");
    assert_eq!(content_type_from_headers(&[]), "text/plain");
}

#[test]
fn civil_dates() {
    assert_eq!(civil_from_days(0), (1970, 1, 1));
    assert_eq!(civil_from_days(19737), (2024, 1, 15));
    assert_eq!(civil_from_days(-1), (1969, 12, 31));
    assert_eq!(civil_from_days(11016), (2000, 2, 29));
}

#[test]
fn playback_lookup_matches_uppercased_method_and_url() {
    let entry = |m: &str, u: &str, status: u16| HarPlaybackEntry {
        request: HarPlaybackRequest { method: m.into(), url: u.into() },
        response: HarPlaybackResponse {
            status,
            headers: vec![],
            content: HarPlaybackContent { text: None, mime_type: None, encoding: None },
        },
    };
    let har = HarPlayback {
        entries: vec![entry("get", "https://a/", 200), entry("POST", "https://a/", 201), entry("GET", "https://a/", 500)],
    };
    let lookup = HarLookup::from_har(har);
    assert_eq!(lookup.lookup("GET", "https://a/").unwrap().status, 200);
    assert_eq!(lookup.lookup("post", "https://a/").unwrap().status, 201);
    assert!(lookup.lookup("GET", "https://b/").is_none());
    assert_eq!(HarOptions::default().not_found, HarNotFound::Continue);
}

#[test]
fn cdp_headers_to_har_basic() {
    let mut obj = serde_json::Map::new();
    obj.insert("Content-Type".to_string(), serde_json::Value::String("text/html".to_string()));
    obj.insert("X-Foo".to_string(), serde_json::Value::String("bar".to_string()));
    let har = cdp_headers_to_har(&serde_json::Value::Object(obj));
    assert_eq!(har.len(), 2);
    let ct = har.iter().find(|h| h.name == "Content-Type").unwrap();
    assert_eq!(ct.value, "text/html");
}

#[test]
fn cdp_headers_to_har_non_object() {
    let har = cdp_headers_to_har(&serde_json::Value::Null);
    assert!(har.is_empty());
}

#[test]
fn header_entries_keep_order_and_blank_non_strings() {
    let hs = headers_from_entries(Some(vec![
        ("b".to_string(), Some("1".to_string())),
        ("a".to_string(), None),
    ]));
    assert_eq!(hs.len(), 2);
    assert_eq!((hs[0].name.as_str(), hs[0].value.as_str()), ("b", "1"));
    assert_eq!((hs[1].name.as_str(), hs[1].value.as_str()), ("a", ""));
    assert!(headers_from_entries(None).is_empty());
}

#[test]
fn response_versions_statuses_and_bodies() {
    assert_eq!(response_http_version(Some("h2")), "HTTP/2.0");
    assert_eq!(response_http_version(None), "HTTP/1.1");
    assert_eq!(status_code(200), 200);
    assert_eq!(status_code(-1), 0);
    assert_eq!(status_code(70_000), 0);
    assert_eq!(response_body(Some(("aGk=".to_string(), true))), (Some("aGk=".to_string()), Some("base64".to_string())));
    assert_eq!(response_body(Some(("hi".to_string(), false))), (Some("hi".to_string()), None));
    assert_eq!(response_body(None), (None, None));
}
