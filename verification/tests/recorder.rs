use chromist::recorder::PendingRequests;

#[test]
fn an_exchange_completes_when_loading_finishes_after_its_response() {
    let mut book: PendingRequests<&str, u16> = PendingRequests::new();
    assert!(book.request_will_be_sent("1".into(), "GET /", None).is_none());
    book.response_received("1", "HTTP/2.0".into(), 200);
    let done = book.loading_finished("1").expect("complete");
    assert_eq!(done.request, "GET /");
    assert_eq!(done.http_version, "HTTP/2.0");
    assert_eq!(done.response, 200);
    assert!(book.loading_finished("1").is_none());
}

#[test]
fn an_exchange_without_a_response_is_not_recorded() {
    let mut book: PendingRequests<&str, u16> = PendingRequests::new();
    book.request_will_be_sent("7".into(), "GET /a", None);
    assert!(book.loading_finished("7").is_none());
}

#[test]
fn a_failed_request_is_forgotten() {
    let mut book: PendingRequests<&str, u16> = PendingRequests::new();
    book.request_will_be_sent("2".into(), "GET /x", None);
    book.response_received("2", "HTTP/1.1".into(), 500);
    book.loading_failed("2");
    assert!(book.loading_finished("2").is_none());
}

#[test]
fn a_redirect_completes_the_previous_hop() {
    let mut book: PendingRequests<&str, u16> = PendingRequests::new();
    book.request_will_be_sent("3".into(), "GET /old", None);
    let hop = book.request_will_be_sent("3".into(), "GET /new", Some(301)).expect("redirect hop");
    assert_eq!(hop.request, "GET /old");
    assert_eq!(hop.http_version, "HTTP/1.1");
    assert_eq!(hop.response, 301);
    book.response_received("3", "HTTP/1.1".into(), 200);
    let done = book.loading_finished("3").expect("final hop");
    assert_eq!(done.request, "GET /new");
    assert_eq!(done.response, 200);
}

#[test]
fn responses_for_unknown_requests_are_ignored() {
    let mut book: PendingRequests<&str, u16> = PendingRequests::new();
    book.response_received("9", "HTTP/1.1".into(), 200);
    assert!(book.loading_finished("9").is_none());
    assert!(book.request_will_be_sent("9".into(), "GET /", Some(302)).is_none());
}
