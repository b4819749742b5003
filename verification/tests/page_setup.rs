use chromist::options::{BrowserContextOptions, ServiceWorkersPolicy};
use chromist::page_setup::{page_setup, PageDefaults, PageSetupStep, SERVICE_WORKER_BLOCK_SCRIPT};

#[test]
fn a_plain_context_does_nothing_to_new_pages() {
    assert!(page_setup(&PageDefaults::new()).is_empty());
}

#[test]
fn context_settings_are_applied_in_order() {
    let opts = BrowserContextOptions::builder()
        .bypass_csp()
        .http_credentials("user", "pass")
        .javascript_disabled()
        .block_service_workers()
        .downloads_path("/tmp/dl")
        .build();
    let mut d = PageDefaults::from_options(opts);
    assert_eq!(d.service_workers, ServiceWorkersPolicy::Block);
    d.init_scripts.push("window.a = 1".to_string());
    d.ws_routes = 2;
    d.offline = true;
    d.geolocation = true;
    d.exposed_functions = 1;
    d.exposed_bindings = 1;
    let steps = page_setup(&d);
    assert_eq!(steps.len(), 12);
    assert!(matches!(&steps[0], PageSetupStep::AddInitScript(s) if s == "window.a = 1"));
    assert!(matches!(steps[1], PageSetupStep::RouteWebSocket(0)));
    assert!(matches!(steps[2], PageSetupStep::RouteWebSocket(1)));
    assert!(matches!(steps[3], PageSetupStep::SetOffline));
    assert!(matches!(steps[4], PageSetupStep::SetGeolocation));
    assert!(matches!(steps[5], PageSetupStep::ExposeFunction(0)));
    assert!(matches!(steps[6], PageSetupStep::ExposeBinding(0)));
    assert!(matches!(steps[7], PageSetupStep::BypassCsp));
    assert!(matches!(steps[8], PageSetupStep::DisableJavascript));
    assert!(matches!(&steps[9], PageSetupStep::Authorize(c) if c.username == "user" && c.password == "pass"));
    assert!(matches!(&steps[10], PageSetupStep::AddInitScript(s) if s == SERVICE_WORKER_BLOCK_SCRIPT));
    assert!(matches!(&steps[11], PageSetupStep::SetDownloadBehavior(p) if p == "/tmp/dl"));
}
