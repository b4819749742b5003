use std::time::Duration;

use chromist::config::{BrowserConfig, Viewport};
use chromist::error::CdpError;
use chromist::options::{DetectionOptions, HeadlessMode};

fn env_get<'a>(cfg: &'a BrowserConfig, key: &str) -> Option<&'a str> {
    cfg.process_envs.iter().find(|(k, _)| k == key).map(|(_, v)| v.as_str())
}

#[test]
fn default_is_headless_new() {
    let cfg = BrowserConfig::default();
    assert!(cfg.is_headless());
    assert_eq!(cfg.headless, HeadlessMode::New);
    assert!(cfg.sandbox);
    assert!(cfg.cache_enabled);
    assert!(!cfg.incognito);
    assert!(!cfg.use_pipe);
    assert_eq!(cfg.port, 0);
}

#[test]
fn with_head_disables_headless() {
    let cfg = BrowserConfig::builder().with_head().build();
    assert!(!cfg.is_headless());
    assert_eq!(cfg.headless, HeadlessMode::False);
}

#[test]
fn builder_arg_and_args_accumulate() {
    let cfg = BrowserConfig::builder().arg("--foo").args(&["--bar", "--baz"]).build();
    assert_eq!(cfg.args, vec!["--foo", "--bar", "--baz"]);
}

#[test]
fn builder_no_sandbox_flag() {
    let cfg = BrowserConfig::builder().no_sandbox().build();
    assert!(!cfg.sandbox);
}

#[test]
fn builder_envs_merge() {
    let cfg = BrowserConfig::builder().env("A", "1").envs(&[("B", "2"), ("C", "3")]).build();
    assert_eq!(env_get(&cfg, "A"), Some("1"));
    assert_eq!(env_get(&cfg, "B"), Some("2"));
    assert_eq!(env_get(&cfg, "C"), Some("3"));
}

#[test]
fn builder_extensions_accumulate() {
    let cfg = BrowserConfig::builder().extension("/ext/a").extensions(&["/ext/b", "/ext/c"]).build();
    assert_eq!(cfg.extensions.len(), 3);
}

#[test]
fn cache_toggles() {
    let off = BrowserConfig::builder().cache(false).build();
    assert!(!off.cache_enabled);
    let on = BrowserConfig::builder().cache(true).build();
    assert!(on.cache_enabled);
}

#[test]
fn request_intercept_toggles() {
    let on = BrowserConfig::builder().request_intercept(true).build();
    assert!(on.request_intercept);
    let off = BrowserConfig::builder().request_intercept(false).build();
    assert!(!off.request_intercept);
}

#[test]
fn ignore_default_args_flag() {
    let cfg = BrowserConfig::builder().ignore_default_args().build();
    assert!(cfg.ignore_default_args);
}

#[test]
fn hide_adds_blink_flag() {
    let cfg = BrowserConfig::builder().hide_automation().build();
    assert!(cfg.args.iter().any(|a| a == "--disable-blink-features=AutomationControlled"));
}

#[test]
fn disable_https_first_adds_feature_flag() {
    let cfg = BrowserConfig::builder().disable_https_first().build();
    assert!(cfg.args.iter().any(|a| a.contains("HttpsUpgrades")));
}

#[test]
fn viewport_optional_none() {
    let cfg = BrowserConfig::builder().viewport(None).build();
    assert!(cfg.viewport.is_none());
}

#[test]
fn window_size_round_trip() {
    let cfg = BrowserConfig::builder().window_size(1920, 1080).build();
    assert_eq!(cfg.window_size, Some((1920, 1080)));
}

#[test]
fn port_and_executable() {
    let cfg = BrowserConfig::builder().port(9222).executable("/usr/bin/chromium").build();
    assert_eq!(cfg.port, 9222);
    assert_eq!(cfg.executable.as_deref().map(std::path::Path::new), Some(std::path::Path::new("/usr/bin/chromium")));
}

#[test]
fn timeouts_are_configurable() {
    let cfg = BrowserConfig::builder()
        .launch_timeout(Duration::from_secs(5))
        .request_timeout(Duration::from_secs(15))
        .build();
    assert_eq!(cfg.launch_timeout, Duration::from_secs(5));
    assert_eq!(cfg.request_timeout, Duration::from_secs(15));
}

#[test]
fn incognito_and_pipe_flags() {
    let cfg = BrowserConfig::builder().incognito().use_pipe().build();
    assert!(cfg.incognito);
    assert!(cfg.use_pipe);
}

#[test]
fn surface_invalid_messages_flag() {
    let cfg = BrowserConfig::builder().surface_invalid_messages().build();
    assert!(cfg.surface_invalid_messages);
}

#[test]
fn respect_https_errors_flag() {
    let cfg = BrowserConfig::builder().respect_https_errors().build();
    assert!(cfg.respect_https_errors);
}

#[test]
fn disable_default_arg_accumulates() {
    let cfg = BrowserConfig::builder()
        .disable_default_arg("--disable-extensions")
        .disable_default_arg("--disable-sync")
        .build();
    assert_eq!(cfg.disable_default_args.len(), 2);
}

#[test]
fn default_timeouts_and_viewport() {
    let cfg = BrowserConfig::default();
    assert_eq!(cfg.launch_timeout, Duration::from_secs(20));
    assert_eq!(cfg.request_timeout, Duration::from_secs(30));
    let v = cfg.viewport.unwrap();
    assert_eq!((v.width, v.height), (1280, 720));
    assert_eq!(f64::from_bits(v.device_scale_factor_bits), 1.0);
    assert_eq!(v, Viewport::new(1280, 720));
}

#[test]
fn a_later_env_value_replaces_an_earlier_one() {
    let cfg = BrowserConfig::builder().env("A", "1").envs(&[("A", "2"), ("B", "3")]).env("B", "4").build();
    assert_eq!(cfg.process_envs.len(), 2);
    assert_eq!(env_get(&cfg, "A"), Some("2"));
    assert_eq!(env_get(&cfg, "B"), Some("4"));
}

#[test]
fn other_builder_settings() {
    let cfg = BrowserConfig::builder()
        .headless(HeadlessMode::Legacy)
        .user_data_dir("/tmp/profile")
        .chrome_detection(DetectionOptions { msedge: false, unstable: true })
        .proxy("http://proxy:8080")
        .proxy_bypass_list("localhost")
        .slow_mo(Duration::from_millis(50))
        .downloads_path("/tmp/dl")
        .build();
    assert_eq!(cfg.headless, HeadlessMode::Legacy);
    assert_eq!(cfg.user_data_dir.as_deref(), Some("/tmp/profile"));
    assert!(!cfg.detection.msedge && cfg.detection.unstable);
    assert_eq!(cfg.proxy_server.as_deref(), Some("http://proxy:8080"));
    assert_eq!(cfg.proxy_bypass_list.as_deref(), Some("localhost"));
    assert_eq!(cfg.slow_mo, Some(Duration::from_millis(50)));
    assert_eq!(cfg.downloads_path.as_deref(), Some("/tmp/dl"));
}

#[test]
fn resolve_executable_prefers_the_configured_path() {
    let cfg = BrowserConfig::builder().executable("/opt/chrome").build();
    assert_eq!(cfg.resolve_executable(Some("/usr/bin/chromium".to_string())).unwrap(), "/opt/chrome");
    let auto = BrowserConfig::default();
    assert_eq!(auto.resolve_executable(Some("/usr/bin/chromium".to_string())).unwrap(), "/usr/bin/chromium");
    assert!(matches!(auto.resolve_executable(None), Err(CdpError::LaunchNotFound)));
}

#[test]
fn launch_settings_follow_the_configuration() {
    let cfg = BrowserConfig::builder()
        .no_sandbox()
        .port(9222)
        .arg("--foo")
        .extension("/ext/a")
        .proxy("http://proxy:8080")
        .window_size(800, 600)
        .build();
    let l = cfg.launch_settings();
    assert!(!l.sandbox);
    assert_eq!(l.port, 9222);
    assert_eq!(l.args, vec!["--foo"]);
    assert_eq!(l.extensions, vec!["/ext/a"]);
    assert_eq!(l.proxy_server.as_deref(), Some("http://proxy:8080"));
    assert_eq!(l.window_size, Some((800, 600)));
    assert_eq!(l.viewport_size, Some((1280, 720)));
    assert_eq!(l.headless, HeadlessMode::New);
}
