//! The browser's launch configuration and its fluent builder.
//!
//! Paths are held as text. The initial viewport's device scale factor is a
//! float, so it is carried as the bits of that `f64`; what a storage-state
//! snapshot to restore would hold is not part of this configuration.

use std::time::Duration;

use vstd::prelude::*;

use crate::error::CdpError;
use crate::launch::LaunchSettings;
use crate::keyed::{distinct_keys, keyed, lemma_keyed_push, lemma_keyed_remove, position_of};
use crate::options::{DetectionOptions, HeadlessMode};

verus! {

/// The duration of `n` whole seconds.
pub uninterp spec fn duration_from_secs(n: u64) -> Duration;

/// `std::time::Duration::from_secs`.
///
/// Trusted: the duration is the one named by `duration_from_secs`, a
/// function of `n` alone (it is opaque here otherwise).
#[verifier::external_body]
fn seconds(n: u64) -> (d: Duration)
    ensures
        d == duration_from_secs(n),
{
    Duration::from_secs(n)
}

/// The bits of the `f64` 1.0, the default device scale factor.
pub const SCALE_ONE_BITS: u64 = 0x3FF0_0000_0000_0000;

/// The initial viewport of new pages.
#[derive(Debug, Clone, Copy, PartialEq, Eq, Structural)]
pub struct Viewport {
    /// Width in CSS pixels.
    pub width: u32,
    /// Height in CSS pixels.
    pub height: u32,
    /// The device pixel ratio, as the bits of an `f64`.
    pub device_scale_factor_bits: u64,
    /// Pretend to be a mobile device.
    pub emulating_mobile: bool,
    /// Force landscape orientation.
    pub is_landscape: bool,
    /// Emulate touch events.
    pub has_touch: bool,
}

impl Viewport {
    /// A `width` × `height` viewport; scale factor 1, desktop, portrait,
    /// no touch.
    pub fn new(width: u32, height: u32) -> (v: Self)
        ensures
            v == (Viewport {
                width,
                height,
                device_scale_factor_bits: SCALE_ONE_BITS,
                emulating_mobile: false,
                is_landscape: false,
                has_touch: false,
            }),
    {
        Viewport {
            width,
            height,
            device_scale_factor_bits: SCALE_ONE_BITS,
            emulating_mobile: false,
            is_landscape: false,
            has_touch: false,
        }
    }
}

/// The environment variables of a list, by name.
pub open spec fn env_vars(v: Seq<(String, String)>) -> Map<Seq<char>, Seq<char>> {
    keyed(v).map_values(|s: String| s@)
}

/// The texts of a list of strings.
pub open spec fn texts(v: Seq<String>) -> Seq<Seq<char>> {
    v.map_values(|s: String| s@)
}

/// The texts of a list of string slices.
pub open spec fn str_texts(v: Seq<&str>) -> Seq<Seq<char>> {
    v.map_values(|s: &str| s@)
}

/// `m` with each pair of `ps` set in turn, a later one for the same name
/// replacing an earlier one.
pub open spec fn set_all(m: Map<Seq<char>, Seq<char>>, ps: Seq<(&str, &str)>) -> Map<Seq<char>, Seq<char>>
    decreases ps.len(),
{
    if ps.len() == 0 {
        m
    } else {
        set_all(m, ps.drop_last()).insert(ps.last().0@, ps.last().1@)
    }
}

/// Everything that shapes how the browser is launched.
#[derive(Debug)]
pub struct BrowserConfig {
    /// The browser executable; `None` auto-detects it.
    pub executable: Option<String>,
    /// How to run the renderer.
    pub headless: HeadlessMode,
    /// A persistent profile directory; `None` uses a temporary one.
    pub user_data_dir: Option<String>,
    /// The `--remote-debugging-port`; `0` lets the browser pick one.
    pub port: u16,
    /// Keep the sandbox; when `false`, `--no-sandbox` is passed.
    pub sandbox: bool,
    /// Extra arguments appended after the defaults.
    pub args: Vec<String>,
    /// How long to wait for the browser to announce its endpoint.
    pub launch_timeout: Duration,
    /// The default time limit of each protocol command.
    pub request_timeout: Duration,
    /// The initial viewport of new pages; `None` keeps the browser's own.
    pub viewport: Option<Viewport>,
    /// The OS window size, taking precedence over the viewport.
    pub window_size: Option<(u32, u32)>,
    /// Pass `--incognito`.
    pub incognito: bool,
    /// Unpacked extensions to load.
    pub extensions: Vec<String>,
    /// Environment variables of the browser process; no name twice.
    pub process_envs: Vec<(String, String)>,
    /// Leave out the default flags entirely.
    pub ignore_default_args: bool,
    /// Default flags to leave out.
    pub disable_default_args: Vec<String>,
    /// When `false`, every page disables the HTTP cache.
    pub cache_enabled: bool,
    /// Accept invalid HTTPS certificates.
    pub respect_https_errors: bool,
    /// Intercept requests on every new page.
    pub request_intercept: bool,
    /// Report protocol messages that cannot be read as errors.
    pub surface_invalid_messages: bool,
    /// Knobs of executable auto-detection.
    pub detection: DetectionOptions,
    /// Talk to the browser over OS pipes instead of a debugging port.
    pub use_pipe: bool,
    /// Proxy server for the whole browser.
    pub proxy_server: Option<String>,
    /// Hosts that bypass the proxy, comma-separated.
    pub proxy_bypass_list: Option<String>,
    /// Delay between actions, for slow-motion debugging.
    pub slow_mo: Option<Duration>,
    /// Default download directory.
    pub downloads_path: Option<String>,
}

/// The settings of a fresh configuration.
pub open spec fn is_default_config(c: BrowserConfig) -> bool {
    &&& c.executable is None
    &&& c.launch_timeout == duration_from_secs(20)
    &&& c.request_timeout == duration_from_secs(30)
    &&& c.headless == HeadlessMode::New
    &&& c.user_data_dir is None
    &&& c.port == 0
    &&& c.sandbox
    &&& c.args@.len() == 0
    &&& c.viewport == Some(
        Viewport {
            width: 1280,
            height: 720,
            device_scale_factor_bits: SCALE_ONE_BITS,
            emulating_mobile: false,
            is_landscape: false,
            has_touch: false,
        },
    )
    &&& c.window_size is None
    &&& !c.incognito
    &&& c.extensions@.len() == 0
    &&& c.process_envs@.len() == 0
    &&& !c.ignore_default_args
    &&& c.disable_default_args@.len() == 0
    &&& c.cache_enabled
    &&& !c.respect_https_errors
    &&& !c.request_intercept
    &&& !c.surface_invalid_messages
    &&& c.detection.msedge && !c.detection.unstable
    &&& !c.use_pipe
    &&& c.proxy_server is None
    &&& c.proxy_bypass_list is None
    &&& c.slow_mo is None
    &&& c.downloads_path is None
}

impl Default for BrowserConfig {
    fn default() -> (c: Self)
        ensures
            is_default_config(c),
    {
        BrowserConfig {
            executable: None,
            headless: HeadlessMode::New,
            user_data_dir: None,
            port: 0,
            sandbox: true,
            args: Vec::new(),
            launch_timeout: seconds(20),
            request_timeout: seconds(30),
            viewport: Some(Viewport::new(1280, 720)),
            window_size: None,
            incognito: false,
            extensions: Vec::new(),
            process_envs: Vec::new(),
            ignore_default_args: false,
            disable_default_args: Vec::new(),
            cache_enabled: true,
            respect_https_errors: false,
            request_intercept: false,
            surface_invalid_messages: false,
            detection: DetectionOptions::default(),
            use_pipe: false,
            proxy_server: None,
            proxy_bypass_list: None,
            slow_mo: None,
            downloads_path: None,
        }
    }
}

impl BrowserConfig {
    /// A fresh builder seeded with the default configuration.
    pub fn builder() -> (b: BrowserConfigBuilder)
        ensures
            is_default_config(b.inner),
    {
        BrowserConfigBuilder { inner: BrowserConfig::default() }
    }

    /// Whether the browser runs without a window (`Legacy` or `New`).
    pub fn is_headless(&self) -> (b: bool)
        ensures
            b == !(self.headless is False),
    {
        self.headless.is_headless()
    }

    /// What the browser's command line is built from, as this
    /// configuration sets it; the viewport gives only its size.
    pub fn launch_settings(&self) -> (l: LaunchSettings)
        ensures
            l.use_pipe == self.use_pipe,
            l.port == self.port,
            l.sandbox == self.sandbox,
            l.window_size == self.window_size,
            l.viewport_size == match self.viewport {
                Some(v) => Some((v.width, v.height)),
                None => None,
            },
            l.incognito == self.incognito,
            texts(l.extensions@) == texts(self.extensions@),
            l.ignore_default_args == self.ignore_default_args,
            texts(l.disable_default_args@) == texts(self.disable_default_args@),
            l.headless == self.headless,
            opt_text(l.proxy_server) == opt_text(self.proxy_server),
            opt_text(l.proxy_bypass_list) == opt_text(self.proxy_bypass_list),
            texts(l.args@) == texts(self.args@),
    {
        LaunchSettings {
            use_pipe: self.use_pipe,
            port: self.port,
            sandbox: self.sandbox,
            window_size: self.window_size,
            viewport_size: match self.viewport {
                Some(v) => Some((v.width, v.height)),
                None => None,
            },
            incognito: self.incognito,
            extensions: copy_strings(&self.extensions),
            ignore_default_args: self.ignore_default_args,
            disable_default_args: copy_strings(&self.disable_default_args),
            headless: self.headless,
            proxy_server: copy_opt(&self.proxy_server),
            proxy_bypass_list: copy_opt(&self.proxy_bypass_list),
            args: copy_strings(&self.args),
        }
    }

    /// The browser executable: the configured one, else `detected` (what
    /// auto-detection with `self.detection` found), else
    /// `CdpError::LaunchNotFound`.
    pub fn resolve_executable(&self, detected: Option<String>) -> (r: Result<String, CdpError>)
        ensures
            match self.executable {
                Some(p) => r matches Ok(q) && q@ == p@,
                None => match detected {
                    Some(d) => r matches Ok(q) && q@ == d@,
                    None => r matches Err(CdpError::LaunchNotFound),
                },
            },
    {
        match &self.executable {
            Some(p) => Ok(p.clone()),
            None => match detected {
                Some(d) => Ok(d),
                None => Err(CdpError::LaunchNotFound),
            },
        }
    }
}

/// The text of an optional string.
pub open spec fn opt_text(s: Option<String>) -> Option<Seq<char>> {
    match s {
        Some(t) => Some(t@),
        None => None,
    }
}

/// A copy of an optional string.
fn copy_opt(s: &Option<String>) -> (r: Option<String>)
    ensures
        opt_text(r) == opt_text(*s),
{
    match s {
        Some(t) => Some(t.clone()),
        None => None,
    }
}

/// A copy of a list of strings.
fn copy_strings(v: &Vec<String>) -> (r: Vec<String>)
    ensures
        texts(r@) == texts(v@),
{
    let mut r: Vec<String> = Vec::new();
    let mut i: usize = 0;
    while i < v.len()
        invariant
            i <= v@.len(),
            texts(r@) == texts(v@.take(i as int)),
        decreases v@.len() - i,
    {
        let ghost before = r@;
        let s = v[i].clone();
        r.push(s);
        assert(texts(r@) =~= texts(before).push(s@));
        assert(texts(v@.take(i + 1)) =~= texts(v@.take(i as int)).push(v@[i as int]@));
        i = i + 1;
    }
    assert(v@.take(i as int) =~= v@);
    r
}

/// Set `key` to `value` in a list of environment variables, replacing an
/// earlier value.
fn set_env(v: &mut Vec<(String, String)>, key: &str, value: &str)
    requires
        distinct_keys(old(v)@),
    ensures
        distinct_keys(final(v)@),
        env_vars(final(v)@) == env_vars(old(v)@).insert(key@, value@),
{
    let ghost before = v@;
    match position_of(v, key) {
        Some(i) => {
            proof {
                lemma_keyed_remove(before, i as int);
            }
            let _ = v.remove(i);
        },
        None => {},
    }
    let ghost mid = v@;
    let e = (key.to_owned(), value.to_owned());
    proof {
        lemma_keyed_push(mid, e);
    }
    v.push(e);
    assert(keyed(mid) =~= keyed(before).remove(key@));
    assert(env_vars(v@) =~= env_vars(before).insert(key@, value@));
}

/// Fluent builder for [`BrowserConfig`].
#[derive(Debug)]
pub struct BrowserConfigBuilder {
    /// The configuration built so far.
    pub inner: BrowserConfig,
}

impl BrowserConfigBuilder {
    /// Use the browser executable at `path` instead of detecting one.
    pub fn executable(self, path: &str) -> (b: Self)
        ensures
            b.inner == (BrowserConfig { executable: b.inner.executable, ..self.inner }),
            b.inner.executable matches Some(p) && p@ == path@,
    {
        let mut inner = self.inner;
        inner.executable = Some(path.to_owned());
        BrowserConfigBuilder { inner }
    }

    /// Append each of `args` to the extra arguments, in order.
    pub fn args(self, args: &[&str]) -> (b: Self)
        ensures
            b.inner == (BrowserConfig { args: b.inner.args, ..self.inner }),
            texts(b.inner.args@) == texts(self.inner.args@) + str_texts(args@),
    {
        let ghost start = self.inner;
        let mut inner = self.inner;
        let mut i: usize = 0;
        assert(str_texts(args@.take(0)) =~= seq![]);
        assert(texts(start.args@) + seq![] =~= texts(start.args@));
        while i < args.len()
            invariant
                i <= args@.len(),
                inner == (BrowserConfig { args: inner.args, ..start }),
                texts(inner.args@) == texts(start.args@) + str_texts(args@.take(i as int)),
            decreases args@.len() - i,
        {
            let ghost before = inner.args@;
            let a = args[i].to_owned();
            inner.args.push(a);
            assert(texts(inner.args@) =~= texts(before).push(a@));
            assert(str_texts(args@.take(i + 1)) =~= str_texts(args@.take(i as int)).push(args@[i as int]@));
            i = i + 1;
        }
        assert(args@.take(i as int) =~= args@);
        BrowserConfigBuilder { inner }
    }

    /// Load each of the unpacked extensions at `paths`, in order.
    pub fn extensions(self, paths: &[&str]) -> (b: Self)
        ensures
            b.inner == (BrowserConfig { extensions: b.inner.extensions, ..self.inner }),
            texts(b.inner.extensions@) == texts(self.inner.extensions@) + str_texts(paths@),
    {
        let ghost start = self.inner;
        let mut inner = self.inner;
        let mut i: usize = 0;
        assert(str_texts(paths@.take(0)) =~= seq![]);
        assert(texts(start.extensions@) + seq![] =~= texts(start.extensions@));
        while i < paths.len()
            invariant
                i <= paths@.len(),
                inner == (BrowserConfig { extensions: inner.extensions, ..start }),
                texts(inner.extensions@) == texts(start.extensions@) + str_texts(paths@.take(i as int)),
            decreases paths@.len() - i,
        {
            let ghost before = inner.extensions@;
            let a = paths[i].to_owned();
            inner.extensions.push(a);
            assert(texts(inner.extensions@) =~= texts(before).push(a@));
            assert(str_texts(paths@.take(i + 1)) =~= str_texts(paths@.take(i as int)).push(paths@[i as int]@));
            i = i + 1;
        }
        assert(paths@.take(i as int) =~= paths@);
        BrowserConfigBuilder { inner }
    }

    /// Set the environment variable `key` of the browser process to
    /// `value`, replacing an earlier value.
    pub fn env(self, key: &str, value: &str) -> (b: Self)
        requires
            distinct_keys(self.inner.process_envs@),
        ensures
            b.inner == (BrowserConfig { process_envs: b.inner.process_envs, ..self.inner }),
            distinct_keys(b.inner.process_envs@),
            env_vars(b.inner.process_envs@) == env_vars(self.inner.process_envs@).insert(key@, value@),
    {
        let mut inner = self.inner;
        set_env(&mut inner.process_envs, key, value);
        BrowserConfigBuilder { inner }
    }

    /// Set each environment variable of `envs` in turn, a later one for the
    /// same name replacing an earlier one.
    pub fn envs(self, envs: &[(&str, &str)]) -> (b: Self)
        requires
            distinct_keys(self.inner.process_envs@),
        ensures
            b.inner == (BrowserConfig { process_envs: b.inner.process_envs, ..self.inner }),
            distinct_keys(b.inner.process_envs@),
            env_vars(b.inner.process_envs@) == set_all(env_vars(self.inner.process_envs@), envs@),
    {
        let ghost start = self.inner;
        let mut inner = self.inner;
        let mut i: usize = 0;
        assert(envs@.take(0) =~= seq![]);
        while i < envs.len()
            invariant
                i <= envs@.len(),
                inner == (BrowserConfig { process_envs: inner.process_envs, ..start }),
                distinct_keys(inner.process_envs@),
                env_vars(inner.process_envs@) == set_all(env_vars(start.process_envs@), envs@.take(i as int)),
            decreases envs@.len() - i,
        {
            let (k, v) = envs[i];
            set_env(&mut inner.process_envs, k, v);
            assert(envs@.take(i + 1).drop_last() =~= envs@.take(i as int));
            i = i + 1;
        }
        assert(envs@.take(i as int) =~= envs@);
        BrowserConfigBuilder { inner }
    }

    /// The configuration built.
    pub fn build(self) -> (c: BrowserConfig)
        ensures
            c == self.inner,
    {
        self.inner
    }

    /// Run the renderer in `mode`.
    pub fn headless(self, mode: HeadlessMode) -> (b: Self)
        ensures
            b.inner == (BrowserConfig { headless: b.inner.headless, ..self.inner }),
            b.inner.headless == mode,
    {
        let mut inner = self.inner;
        inner.headless = mode;
        BrowserConfigBuilder { inner }
    }

    /// Run with a visible window: `headless(HeadlessMode::False)`.
    pub fn with_head(self) -> (b: Self)
        ensures
            b.inner == (BrowserConfig { headless: b.inner.headless, ..self.inner }),
            b.inner.headless == HeadlessMode::False,
    {
        let mut inner = self.inner;
        inner.headless = HeadlessMode::False;
        BrowserConfigBuilder { inner }
    }

    /// Use the persistent profile directory at `path`.
    pub fn user_data_dir(self, path: &str) -> (b: Self)
        ensures
            b.inner == (BrowserConfig { user_data_dir: b.inner.user_data_dir, ..self.inner }),
            b.inner.user_data_dir matches Some(p) && p@ == path@,
    {
        let mut inner = self.inner;
        inner.user_data_dir = Some(path.to_owned());
        BrowserConfigBuilder { inner }
    }

    /// Pass `port` as the `--remote-debugging-port` (`0` lets the browser pick).
    pub fn port(self, port: u16) -> (b: Self)
        ensures
            b.inner == (BrowserConfig { port: b.inner.port, ..self.inner }),
            b.inner.port == port,
    {
        let mut inner = self.inner;
        inner.port = port;
        BrowserConfigBuilder { inner }
    }

    /// Pass `--no-sandbox`.
    pub fn no_sandbox(self) -> (b: Self)
        ensures
            b.inner == (BrowserConfig { sandbox: b.inner.sandbox, ..self.inner }),
            !b.inner.sandbox,
    {
        let mut inner = self.inner;
        inner.sandbox = false;
        BrowserConfigBuilder { inner }
    }

    /// Set the initial viewport of new pages (`None` keeps the browser's own).
    pub fn viewport(self, viewport: Option<Viewport>) -> (b: Self)
        ensures
            b.inner == (BrowserConfig { viewport: b.inner.viewport, ..self.inner }),
            b.inner.viewport == viewport,
    {
        let mut inner = self.inner;
        inner.viewport = viewport;
        BrowserConfigBuilder { inner }
    }

    /// Set the OS window size with `--window-size`.
    pub fn window_size(self, width: u32, height: u32) -> (b: Self)
        ensures
            b.inner == (BrowserConfig { window_size: b.inner.window_size, ..self.inner }),
            b.inner.window_size == Some((width, height)),
    {
        let mut inner = self.inner;
        inner.window_size = Some((width, height));
        BrowserConfigBuilder { inner }
    }

    /// Pass `--incognito`, so the default context keeps nothing.
    pub fn incognito(self) -> (b: Self)
        ensures
            b.inner == (BrowserConfig { incognito: b.inner.incognito, ..self.inner }),
            b.inner.incognito,
    {
        let mut inner = self.inner;
        inner.incognito = true;
        BrowserConfigBuilder { inner }
    }

    /// Leave out the default flags entirely.
    pub fn ignore_default_args(self) -> (b: Self)
        ensures
            b.inner == (BrowserConfig { ignore_default_args: b.inner.ignore_default_args, ..self.inner }),
            b.inner.ignore_default_args,
    {
        let mut inner = self.inner;
        inner.ignore_default_args = true;
        BrowserConfigBuilder { inner }
    }

    /// Wait at most `d` for the browser to announce its endpoint.
    pub fn launch_timeout(self, d: Duration) -> (b: Self)
        ensures
            b.inner == (BrowserConfig { launch_timeout: b.inner.launch_timeout, ..self.inner }),
            b.inner.launch_timeout == d,
    {
        let mut inner = self.inner;
        inner.launch_timeout = d;
        BrowserConfigBuilder { inner }
    }

    /// Give each protocol command at most `d` by default.
    pub fn request_timeout(self, d: Duration) -> (b: Self)
        ensures
            b.inner == (BrowserConfig { request_timeout: b.inner.request_timeout, ..self.inner }),
            b.inner.request_timeout == d,
    {
        let mut inner = self.inner;
        inner.request_timeout = d;
        BrowserConfigBuilder { inner }
    }

    /// Keep the HTTP cache (`true`) or disable it on every page.
    pub fn cache(self, enabled: bool) -> (b: Self)
        ensures
            b.inner == (BrowserConfig { cache_enabled: b.inner.cache_enabled, ..self.inner }),
            b.inner.cache_enabled == enabled,
    {
        let mut inner = self.inner;
        inner.cache_enabled = enabled;
        BrowserConfigBuilder { inner }
    }

    /// Accept invalid HTTPS certificates (`--ignore-certificate-errors`).
    pub fn respect_https_errors(self) -> (b: Self)
        ensures
            b.inner == (BrowserConfig { respect_https_errors: b.inner.respect_https_errors, ..self.inner }),
            b.inner.respect_https_errors,
    {
        let mut inner = self.inner;
        inner.respect_https_errors = true;
        BrowserConfigBuilder { inner }
    }

    /// Intercept requests on every new page, or not.
    pub fn request_intercept(self, enabled: bool) -> (b: Self)
        ensures
            b.inner == (BrowserConfig { request_intercept: b.inner.request_intercept, ..self.inner }),
            b.inner.request_intercept == enabled,
    {
        let mut inner = self.inner;
        inner.request_intercept = enabled;
        BrowserConfigBuilder { inner }
    }

    /// Report protocol messages that cannot be read as errors.
    pub fn surface_invalid_messages(self) -> (b: Self)
        ensures
            b.inner == (BrowserConfig { surface_invalid_messages: b.inner.surface_invalid_messages, ..self.inner }),
            b.inner.surface_invalid_messages,
    {
        let mut inner = self.inner;
        inner.surface_invalid_messages = true;
        BrowserConfigBuilder { inner }
    }

    /// Use `opts` when detecting the executable.
    pub fn chrome_detection(self, opts: DetectionOptions) -> (b: Self)
        ensures
            b.inner == (BrowserConfig { detection: b.inner.detection, ..self.inner }),
            b.inner.detection == opts,
    {
        let mut inner = self.inner;
        inner.detection = opts;
        BrowserConfigBuilder { inner }
    }

    /// Talk to the browser over OS pipes (`--remote-debugging-pipe`).
    pub fn use_pipe(self) -> (b: Self)
        ensures
            b.inner == (BrowserConfig { use_pipe: b.inner.use_pipe, ..self.inner }),
            b.inner.use_pipe,
    {
        let mut inner = self.inner;
        inner.use_pipe = true;
        BrowserConfigBuilder { inner }
    }

    /// Route the whole browser through the proxy `server`.
    pub fn proxy(self, server: &str) -> (b: Self)
        ensures
            b.inner == (BrowserConfig { proxy_server: b.inner.proxy_server, ..self.inner }),
            b.inner.proxy_server matches Some(p) && p@ == server@,
    {
        let mut inner = self.inner;
        inner.proxy_server = Some(server.to_owned());
        BrowserConfigBuilder { inner }
    }

    /// Hosts that bypass the proxy, comma-separated.
    pub fn proxy_bypass_list(self, bypass: &str) -> (b: Self)
        ensures
            b.inner == (BrowserConfig { proxy_bypass_list: b.inner.proxy_bypass_list, ..self.inner }),
            b.inner.proxy_bypass_list matches Some(p) && p@ == bypass@,
    {
        let mut inner = self.inner;
        inner.proxy_bypass_list = Some(bypass.to_owned());
        BrowserConfigBuilder { inner }
    }

    /// Insert `delay` between actions.
    pub fn slow_mo(self, delay: Duration) -> (b: Self)
        ensures
            b.inner == (BrowserConfig { slow_mo: b.inner.slow_mo, ..self.inner }),
            b.inner.slow_mo == Some(delay),
    {
        let mut inner = self.inner;
        inner.slow_mo = Some(delay);
        BrowserConfigBuilder { inner }
    }

    /// Save downloads in the directory at `path`.
    pub fn downloads_path(self, path: &str) -> (b: Self)
        ensures
            b.inner == (BrowserConfig { downloads_path: b.inner.downloads_path, ..self.inner }),
            b.inner.downloads_path matches Some(p) && p@ == path@,
    {
        let mut inner = self.inner;
        inner.downloads_path = Some(path.to_owned());
        BrowserConfigBuilder { inner }
    }

    /// Append `arg` to the extra arguments.
    pub fn arg(self, arg: &str) -> (b: Self)
        ensures
            b.inner == (BrowserConfig { args: b.inner.args, ..self.inner }),
            texts(b.inner.args@) == texts(self.inner.args@).push(arg@),
    {
        let mut inner = self.inner;
        let ghost before = inner.args@;
        let s = arg.to_owned();
        inner.args.push(s);
        assert(texts(inner.args@) =~= texts(before).push(s@));
        BrowserConfigBuilder { inner }
    }

    /// Load the unpacked extension at `path`.
    pub fn extension(self, path: &str) -> (b: Self)
        ensures
            b.inner == (BrowserConfig { extensions: b.inner.extensions, ..self.inner }),
            texts(b.inner.extensions@) == texts(self.inner.extensions@).push(path@),
    {
        let mut inner = self.inner;
        let ghost before = inner.extensions@;
        let s = path.to_owned();
        inner.extensions.push(s);
        assert(texts(inner.extensions@) =~= texts(before).push(s@));
        BrowserConfigBuilder { inner }
    }

    /// Leave the default flag `arg` out.
    pub fn disable_default_arg(self, arg: &str) -> (b: Self)
        ensures
            b.inner == (BrowserConfig { disable_default_args: b.inner.disable_default_args, ..self.inner }),
            texts(b.inner.disable_default_args@) == texts(self.inner.disable_default_args@).push(arg@),
    {
        let mut inner = self.inner;
        let ghost before = inner.disable_default_args@;
        let s = arg.to_owned();
        inner.disable_default_args.push(s);
        assert(texts(inner.disable_default_args@) =~= texts(before).push(s@));
        BrowserConfigBuilder { inner }
    }

    /// Append `--disable-blink-features=AutomationControlled`, so that
    /// `navigator.webdriver` is `false`.
    pub fn hide_automation(self) -> (b: Self)
        ensures
            b.inner == (BrowserConfig { args: b.inner.args, ..self.inner }),
            texts(b.inner.args@) == texts(self.inner.args@).push("--disable-blink-features=AutomationControlled"@),
    {
        let mut inner = self.inner;
        let ghost before = inner.args@;
        let s = "--disable-blink-features=AutomationControlled".to_owned();
        inner.args.push(s);
        assert(texts(inner.args@) =~= texts(before).push(s@));
        BrowserConfigBuilder { inner }
    }

    /// Switch off the HTTPS-first upgrade, which gets in the way of
    /// plain-HTTP fixtures.
    pub fn disable_https_first(self) -> (b: Self)
        ensures
            b.inner == (BrowserConfig { args: b.inner.args, ..self.inner }),
            texts(b.inner.args@) == texts(self.inner.args@).push("--disable-features=HttpsUpgrades,HttpsFirstBalancedModeAutoEnable"@),
    {
        let mut inner = self.inner;
        let ghost before = inner.args@;
        let s = "--disable-features=HttpsUpgrades,HttpsFirstBalancedModeAutoEnable".to_owned();
        inner.args.push(s);
        assert(texts(inner.args@) =~= texts(before).push(s@));
        BrowserConfigBuilder { inner }
    }
}

} // verus!
