//! Plain option values: credentials, headless mode, browser-context options
//! and their builder, stealth and executable-detection settings.

use vstd::prelude::*;
use vstd::utf8::encode_utf8;

use crate::text::push_str;
use crate::types::base64_text;

verus! {

// ---------------------------------------------------------------------------
// Credentials
// ---------------------------------------------------------------------------

/// Username + password pair for HTTP Basic Auth challenges.
#[derive(Debug, Clone)]
pub struct Credentials {
    /// HTTP Basic Auth username.
    pub username: String,
    /// HTTP Basic Auth password.
    pub password: String,
}

impl Credentials {
    /// Credentials from a username and a password.
    pub fn new(username: &str, password: &str) -> (c: Self)
        ensures
            c.username@ == username@,
            c.password@ == password@,
    {
        Credentials { username: username.to_owned(), password: password.to_owned() }
    }
}

// ---------------------------------------------------------------------------
// Headless mode
// ---------------------------------------------------------------------------

/// How to run the browser's renderer: headed, legacy headless, or the
/// modern "new" headless mode.
#[derive(Debug, Clone, Copy, PartialEq, Eq, Structural)]
pub enum HeadlessMode {
    /// A visible browser window; no headless flag.
    False,
    /// The legacy `--headless` flag.
    Legacy,
    /// The modern `--headless=new` flag (the default).
    New,
}

impl HeadlessMode {
    /// Alias for [`HeadlessMode::Legacy`].
    #[allow(non_upper_case_globals)]
    pub const True: HeadlessMode = HeadlessMode::Legacy;

    /// Whether the browser runs without a window (`Legacy` or `New`).
    pub fn is_headless(&self) -> (b: bool)
        ensures
            b == !(*self is False),
    {
        !matches!(self, HeadlessMode::False)
    }
}

impl Default for HeadlessMode {
    fn default() -> (m: Self)
        ensures
            m == HeadlessMode::New,
    {
        HeadlessMode::New
    }
}

// ---------------------------------------------------------------------------
// Browser-context options
// ---------------------------------------------------------------------------

/// Whether service workers are allowed in a browser context.
#[derive(Debug, Clone, Copy, PartialEq, Eq, Structural)]
pub enum ServiceWorkersPolicy {
    /// Service workers run normally (the default).
    Allow,
    /// Service worker registration is blocked.
    Block,
}

impl Default for ServiceWorkersPolicy {
    fn default() -> (p: Self)
        ensures
            p == ServiceWorkersPolicy::Allow,
    {
        ServiceWorkersPolicy::Allow
    }
}

/// HTTP Basic Auth credentials sent with every page's requests through the
/// `Authorization` header.
#[derive(Debug, Clone)]
pub struct HttpCredentials {
    /// Username of the Basic-auth pair.
    pub username: String,
    /// Password of the Basic-auth pair.
    pub password: String,
}

/// The `Authorization` header value for a Basic-auth pair:
/// `Basic <base64 of "user:password">`.
pub open spec fn basic_auth_value(username: Seq<char>, password: Seq<char>) -> Seq<char> {
    "Basic "@ + base64_text(encode_utf8(username + ":"@ + password))
}

impl HttpCredentials {
    /// Credentials from a username and a password.
    pub fn new(username: &str, password: &str) -> (c: Self)
        ensures
            c.username@ == username@,
            c.password@ == password@,
    {
        HttpCredentials { username: username.to_owned(), password: password.to_owned() }
    }

    /// The value of an HTTP `Authorization: Basic …` header.
    pub fn as_header_value(&self) -> (s: String)
        requires
            encode_utf8(self.username@ + ":"@ + self.password@).len() <= isize::MAX,
        ensures
            s@ == basic_auth_value(self.username@, self.password@),
    {
        let mut raw = self.username.clone();
        push_str(&mut raw, ":");
        push_str(&mut raw, self.password.as_str());
        let encoded = crate::types::encode_base64(raw.as_str().as_bytes());
        let mut s = "Basic ".to_owned();
        push_str(&mut s, encoded.as_str());
        proof {
            reveal_strlit("Basic ");
            reveal_strlit(":");
        }
        s
    }
}

/// Options for creating a new browser context.
#[derive(Debug, Clone)]
pub struct BrowserContextOptions {
    /// HTTP proxy URL, e.g. `http://proxy.example.com:8080`.
    pub proxy_server: Option<String>,
    /// Comma-separated list of hosts that bypass the proxy.
    pub proxy_bypass_list: Option<String>,
    /// Bypass Content-Security-Policy restrictions on every page.
    pub bypass_csp: bool,
    /// HTTP Basic Auth credentials applied to every page.
    pub http_credentials: Option<HttpCredentials>,
    /// Whether JavaScript is enabled in the context.
    pub javascript_enabled: bool,
    /// Service worker handling policy.
    pub service_workers: ServiceWorkersPolicy,
    /// Directory in which downloaded files are saved.
    pub downloads_path: Option<String>,
}

/// The settings of a fresh `BrowserContextOptions`: no proxy, CSP kept,
/// no credentials, JavaScript on, service workers allowed, no download
/// directory.
pub open spec fn is_default_context_options(o: BrowserContextOptions) -> bool {
    &&& o.proxy_server is None
    &&& o.proxy_bypass_list is None
    &&& !o.bypass_csp
    &&& o.http_credentials is None
    &&& o.javascript_enabled
    &&& o.service_workers == ServiceWorkersPolicy::Allow
    &&& o.downloads_path is None
}

impl Default for BrowserContextOptions {
    fn default() -> (o: Self)
        ensures
            is_default_context_options(o),
    {
        BrowserContextOptions {
            proxy_server: None,
            proxy_bypass_list: None,
            bypass_csp: false,
            http_credentials: None,
            javascript_enabled: true,
            service_workers: ServiceWorkersPolicy::Allow,
            downloads_path: None,
        }
    }
}

impl BrowserContextOptions {
    /// A fresh builder seeded with the default options.
    pub fn builder() -> (b: BrowserContextOptionsBuilder)
        ensures
            is_default_context_options(b.inner),
    {
        BrowserContextOptionsBuilder { inner: BrowserContextOptions::default() }
    }
}

/// Fluent builder for [`BrowserContextOptions`].
#[derive(Debug)]
pub struct BrowserContextOptionsBuilder {
    /// The options built so far.
    pub inner: BrowserContextOptions,
}

/// Two option values that agree everywhere except, possibly, in the fields
/// that the `keep_*` flags leave out.
pub open spec fn same_except(
    a: BrowserContextOptions,
    b: BrowserContextOptions,
    proxy: bool,
    bypass: bool,
    csp: bool,
    creds: bool,
    js: bool,
    workers: bool,
    downloads: bool,
) -> bool {
    &&& (!proxy ==> a.proxy_server == b.proxy_server)
    &&& (!bypass ==> a.proxy_bypass_list == b.proxy_bypass_list)
    &&& (!csp ==> a.bypass_csp == b.bypass_csp)
    &&& (!creds ==> a.http_credentials == b.http_credentials)
    &&& (!js ==> a.javascript_enabled == b.javascript_enabled)
    &&& (!workers ==> a.service_workers == b.service_workers)
    &&& (!downloads ==> a.downloads_path == b.downloads_path)
}

impl BrowserContextOptionsBuilder {
    /// Route every page of the context through the HTTP proxy `server`.
    pub fn proxy(self, server: &str) -> (b: Self)
        ensures
            b.inner.proxy_server matches Some(p) && p@ == server@,
            same_except(b.inner, self.inner, true, false, false, false, false, false, false),
    {
        let mut inner = self.inner;
        inner.proxy_server = Some(server.to_owned());
        BrowserContextOptionsBuilder { inner }
    }

    /// Hosts that bypass the proxy, comma-separated.
    pub fn proxy_bypass_list(self, bypass: &str) -> (b: Self)
        ensures
            b.inner.proxy_bypass_list matches Some(p) && p@ == bypass@,
            same_except(b.inner, self.inner, false, true, false, false, false, false, false),
    {
        let mut inner = self.inner;
        inner.proxy_bypass_list = Some(bypass.to_owned());
        BrowserContextOptionsBuilder { inner }
    }

    /// Bypass Content-Security-Policy on every page of the context.
    pub fn bypass_csp(self) -> (b: Self)
        ensures
            b.inner.bypass_csp,
            same_except(b.inner, self.inner, false, false, true, false, false, false, false),
    {
        let mut inner = self.inner;
        inner.bypass_csp = true;
        BrowserContextOptionsBuilder { inner }
    }

    /// Send HTTP Basic Auth credentials with every page's requests.
    pub fn http_credentials(self, username: &str, password: &str) -> (b: Self)
        ensures
            b.inner.http_credentials matches Some(c) && c.username@ == username@ && c.password@
                == password@,
            same_except(b.inner, self.inner, false, false, false, true, false, false, false),
    {
        let mut inner = self.inner;
        inner.http_credentials = Some(HttpCredentials::new(username, password));
        BrowserContextOptionsBuilder { inner }
    }

    /// Disable JavaScript execution on the context's pages.
    pub fn javascript_disabled(self) -> (b: Self)
        ensures
            !b.inner.javascript_enabled,
            same_except(b.inner, self.inner, false, false, false, false, true, false, false),
    {
        let mut inner = self.inner;
        inner.javascript_enabled = false;
        BrowserContextOptionsBuilder { inner }
    }

    /// Block service-worker registration in the context.
    pub fn block_service_workers(self) -> (b: Self)
        ensures
            b.inner.service_workers == ServiceWorkersPolicy::Block,
            same_except(b.inner, self.inner, false, false, false, false, false, true, false),
    {
        let mut inner = self.inner;
        inner.service_workers = ServiceWorkersPolicy::Block;
        BrowserContextOptionsBuilder { inner }
    }

    /// Directory where the context's downloads are saved.
    pub fn downloads_path(self, path: &str) -> (b: Self)
        ensures
            b.inner.downloads_path matches Some(p) && p@ == path@,
            same_except(b.inner, self.inner, false, false, false, false, false, false, true),
    {
        let mut inner = self.inner;
        inner.downloads_path = Some(path.to_owned());
        BrowserContextOptionsBuilder { inner }
    }

    /// The options built.
    pub fn build(self) -> (o: BrowserContextOptions)
        ensures
            o == self.inner,
    {
        self.inner
    }
}

// ---------------------------------------------------------------------------
// Stealth and detection
// ---------------------------------------------------------------------------

/// Options for stealth mode: the full script set or the minimal one, and
/// an optional user-agent override.
#[derive(Debug, Clone)]
pub struct StealthOptions {
    /// Install the full script set instead of the minimal one.
    pub full: bool,
    /// User-agent to set before the scripts are installed.
    pub user_agent: Option<String>,
}

impl StealthOptions {
    /// The minimal script set without a user-agent override.
    pub fn new() -> (o: Self)
        ensures
            !o.full,
            o.user_agent is None,
    {
        StealthOptions { full: false, user_agent: None }
    }

    /// Choose the full script set (`true`) or the minimal one.
    pub fn full(self, full: bool) -> (o: Self)
        ensures
            o.full == full,
            o.user_agent == self.user_agent,
    {
        StealthOptions { full, user_agent: self.user_agent }
    }

    /// Override the user-agent before the scripts are installed.
    pub fn user_agent(self, ua: &str) -> (o: Self)
        ensures
            o.full == self.full,
            o.user_agent matches Some(u) && u@ == ua@,
    {
        StealthOptions { full: self.full, user_agent: Some(ua.to_owned()) }
    }
}

impl Default for StealthOptions {
    fn default() -> (o: Self)
        ensures
            !o.full,
            o.user_agent is None,
    {
        StealthOptions::new()
    }
}

/// Knobs of executable auto-detection.
#[derive(Debug, Clone, Copy)]
pub struct DetectionOptions {
    /// Also consider Microsoft Edge installations.
    pub msedge: bool,
    /// Also consider Canary / Dev / Beta channels.
    pub unstable: bool,
}

impl Default for DetectionOptions {
    fn default() -> (o: Self)
        ensures
            o.msedge,
            !o.unstable,
    {
        DetectionOptions { msedge: true, unstable: false }
    }
}

} // verus!
