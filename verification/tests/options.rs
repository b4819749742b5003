use chromist::options::{
    BrowserContextOptions, Credentials, DetectionOptions, HeadlessMode, HttpCredentials, ServiceWorkersPolicy,
    StealthOptions,
};

#[test]
fn context_options_builder_sets_each_field() {
    let o = BrowserContextOptions::builder()
        .proxy("http://proxy.corp:8080")
        .proxy_bypass_list("localhost,*.internal")
        .bypass_csp()
        .http_credentials("user", "pass")
        .javascript_disabled()
        .block_service_workers()
        .downloads_path("/tmp/dl")
        .build();
    assert_eq!(o.proxy_server.as_deref(), Some("http://proxy.corp:8080"));
    assert_eq!(o.proxy_bypass_list.as_deref(), Some("localhost,*.internal"));
    assert!(o.bypass_csp);
    assert_eq!(o.http_credentials.as_ref().unwrap().username, "user");
    assert!(!o.javascript_enabled);
    assert_eq!(o.service_workers, ServiceWorkersPolicy::Block);
    assert_eq!(o.downloads_path.as_deref(), Some("/tmp/dl"));
}

#[test]
fn context_options_defaults() {
    let o = BrowserContextOptions::default();
    assert!(o.javascript_enabled);
    assert!(!o.bypass_csp);
    assert_eq!(o.service_workers, ServiceWorkersPolicy::Allow);
    assert!(o.proxy_server.is_none() && o.downloads_path.is_none() && o.http_credentials.is_none());
}

#[test]
fn basic_auth_header_value() {
    let c = HttpCredentials::new("Aladdin", "open sesame");
    assert_eq!(c.as_header_value(), "Basic QWxhZGRpbjpvcGVuIHNlc2FtZQ==");
}

#[test]
fn credentials_keep_their_parts() {
    let c = Credentials::new("u", "p");
    assert_eq!(c.username, "u");
    assert_eq!(c.password, "p");
}

#[test]
fn headless_mode_default_and_predicate() {
    assert_eq!(HeadlessMode::default(), HeadlessMode::New);
    assert!(HeadlessMode::Legacy.is_headless());
    assert!(!HeadlessMode::False.is_headless());
}

#[test]
fn stealth_and_detection_options() {
    let s = StealthOptions::new().full(true).user_agent("UA/1");
    assert!(s.full);
    assert_eq!(s.user_agent.as_deref(), Some("UA/1"));
    let d = DetectionOptions::default();
    assert!(d.msedge);
    assert!(!d.unstable);
}
