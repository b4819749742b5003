use chromist::page::{same_context, Clock, PageWaiter, CLOCK_SHIM};

#[test]
fn clock_scripts() {
    let c = Clock::new("page-handle");
    assert_eq!(c.page, "page-handle");
    assert_eq!(
        c.set_time_script(1_700_000_000_000),
        "window.__chromistClock && window.__chromistClock.setTime(1700000000000)"
    );
    assert_eq!(c.tick_script(5000), "window.__chromistClock && window.__chromistClock.tick(5000)");
    assert_eq!(c.restore_script(), "window.__chromistClock && window.__chromistClock.restore()");
    assert!(CLOCK_SHIM.starts_with("(function() {"));
    assert!(CLOCK_SHIM.contains("window.__chromistClock = {"));
}

#[test]
fn page_waiter_accepts_pages_of_its_context() {
    let w = PageWaiter::new((), (), Some("CTX-A".to_string()), std::time::Duration::from_secs(30));
    let w = w.with_timeout(std::time::Duration::from_secs(5));
    assert_eq!(w.timeout, std::time::Duration::from_secs(5));
    assert!(w.accepts("page", &Some("CTX-A".into()), true));
    assert!(!w.accepts("page", &Some("CTX-B".into()), true));
    assert!(!w.accepts("page", &None, true));
    assert!(!w.accepts("worker", &Some("CTX-A".into()), true));
    assert!(!w.accepts("page", &Some("CTX-A".into()), false));
    assert!(same_context(&None, &None));
}
