use chromist::launch::{ws_url_in_line, StderrLog, MAX_STDERR_LINES, default_args, detection_plan, headless_args, launch_args, LaunchSettings, Probe, TargetOs};
use chromist::options::{DetectionOptions, HeadlessMode};

#[test]
fn default_args_contain_required_flags() {
    let args = default_args();
    assert!(args.contains(&"--no-first-run"));
    assert!(args.contains(&"--enable-automation"));
    assert!(args.contains(&"--password-store=basic"));
}

#[test]
fn default_args_has_no_duplicates() {
    let args = default_args();
    let mut seen = std::collections::HashSet::new();
    for a in &args {
        assert!(seen.insert(*a), "duplicate default arg: {a}");
    }
}

#[test]
fn headless_args_shape() {
    let args = headless_args();
    assert!(args.contains(&"--headless=new"));
    assert!(args.contains(&"--hide-scrollbars"));
    assert!(args.contains(&"--mute-audio"));
}

#[test]
fn all_args_start_with_double_dash() {
    for a in default_args().iter().chain(headless_args().iter()) {
        assert!(a.starts_with("--"), "arg must start with --: {a}");
    }
}

#[test]
fn legacy_alias_matches_legacy_variant() {
    assert_eq!(HeadlessMode::True, HeadlessMode::Legacy);
}

fn settings() -> LaunchSettings {
    LaunchSettings {
        use_pipe: false,
        port: 0,
        sandbox: true,
        window_size: None,
        viewport_size: Some((1280, 720)),
        incognito: false,
        extensions: vec![],
        ignore_default_args: false,
        disable_default_args: vec![],
        headless: HeadlessMode::New,
        proxy_server: None,
        proxy_bypass_list: None,
        args: vec![],
    }
}

#[test]
fn launch_args_for_default_settings() {
    let args = launch_args(&settings(), "/tmp/profile");
    assert_eq!(args[0], "--remote-debugging-port=0");
    assert_eq!(args[1], "--user-data-dir=/tmp/profile");
    assert_eq!(args[2], "--window-size=1280,720");
    assert_eq!(args.len(), 3 + default_args().len() + 3 + 1);
    assert_eq!(args.last().unwrap(), "about:blank");
    assert!(args.contains(&"--headless=new".to_string()));
}

#[test]
fn launch_args_honour_every_setting() {
    let mut s = settings();
    s.use_pipe = true;
    s.sandbox = false;
    s.window_size = Some((800, 600));
    s.incognito = true;
    s.extensions = vec!["/e/one".into(), "/e/two".into()];
    s.disable_default_args = vec!["--disable-sync".into()];
    s.headless = HeadlessMode::Legacy;
    s.proxy_server = Some("http://proxy:8080".into());
    s.proxy_bypass_list = Some("localhost".into());
    s.args = vec!["--lang=fr".into()];
    let args = launch_args(&s, "/p");
    assert_eq!(args[0], "--user-data-dir=/p");
    assert_eq!(args[1], "--no-sandbox");
    assert_eq!(args[2], "--window-size=800,600");
    assert_eq!(args[3], "--incognito");
    assert_eq!(args[4], "--load-extension=/e/one,/e/two");
    assert_eq!(args[5], "--disable-extensions-except=/e/one,/e/two");
    assert!(!args.contains(&"--disable-sync".to_string()));
    assert!(args.contains(&"--headless".to_string()));
    let n = args.len();
    assert_eq!(args[n - 5], "--mute-audio");
    assert_eq!(args[n - 4], "--proxy-server=http://proxy:8080");
    assert_eq!(args[n - 3], "--proxy-bypass-list=localhost");
    assert_eq!(args[n - 2], "--lang=fr");
    assert_eq!(args[n - 1], "about:blank");
    assert_eq!(n, 4 + 2 + (default_args().len() - 1) + 3 + 2 + 1 + 1);
}

#[test]
fn ignoring_default_args_and_headed_mode() {
    let mut s = settings();
    s.ignore_default_args = true;
    s.headless = HeadlessMode::False;
    s.viewport_size = None;
    let args = launch_args(&s, "/p");
    assert_eq!(args, vec!["--remote-debugging-port=0", "--user-data-dir=/p", "about:blank"]);
}

#[test]
fn detection_plan_on_linux_with_edge() {
    let plan = detection_plan(&DetectionOptions::default(), TargetOs::Linux);
    assert_eq!(plan[0], Probe::EnvVar("CHROME".into()));
    assert_eq!(plan[1], Probe::EnvVar("CHROMIUM".into()));
    assert_eq!(plan[2], Probe::OnPath("google-chrome".into()));
    assert_eq!(plan.len(), 2 + 7 + 5);
    assert_eq!(plan[plan.len() - 1], Probe::File("/usr/bin/microsoft-edge-stable".into()));
}

#[test]
fn detection_plan_on_macos_without_edge() {
    let opts = DetectionOptions { msedge: false, unstable: true };
    let plan = detection_plan(&opts, TargetOs::MacOs);
    assert_eq!(plan.len(), 2 + 4);
    assert_eq!(
        plan[5],
        Probe::File("/Applications/Google Chrome Canary.app/Contents/MacOS/Google Chrome Canary".into())
    );
    assert_eq!(detection_plan(&opts, TargetOs::Other).len(), 2);
}

#[test]
fn websocket_url_is_read_from_a_stderr_line() {
    assert_eq!(
        ws_url_in_line("DevTools listening on ws://127.0.0.1:9222/devtools/browser/abc  "),
        Some("ws://127.0.0.1:9222/devtools/browser/abc".to_string())
    );
    assert_eq!(ws_url_in_line("[0101/000000.000:ERROR] something else"), None);
}

#[test]
fn stderr_log_keeps_the_latest_lines() {
    let mut log = StderrLog::new();
    log.push("first".to_string());
    log.push("second".to_string());
    assert_eq!(log.joined(), "first\nsecond");
    let mut log = StderrLog::new();
    for i in 0..(MAX_STDERR_LINES + 5) {
        log.push(format!("line {i}"));
    }
    let text = log.joined();
    let kept: Vec<&str> = text.split('\n').collect();
    assert_eq!(kept.len(), MAX_STDERR_LINES);
    assert_eq!(kept[0], "line 5");
    assert_eq!(kept[MAX_STDERR_LINES - 1], format!("line {}", MAX_STDERR_LINES + 4));
}
