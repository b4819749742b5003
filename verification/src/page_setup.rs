//! What a browser context does to every page opened in it.
//!
//! A context keeps settings (init scripts, WebSocket routes, offline mode,
//! a geolocation override, exposed functions and bindings, CSP bypass,
//! JavaScript, credentials, the service-worker policy, a download
//! directory) that each new page receives, in a fixed order. The settings
//! are held here as plain values; what carries a handler or a coordinate
//! stays with the caller, which the plan names by position.

use vstd::prelude::*;

use crate::options::{BrowserContextOptions, HttpCredentials, ServiceWorkersPolicy};
use crate::pdl::strs;

verus! {

/// The init script that hides `navigator.serviceWorker` from pages.
pub const SERVICE_WORKER_BLOCK_SCRIPT: &'static str = "Object.defineProperty(navigator, 'serviceWorker', {get: () => undefined, configurable: false});";

/// The settings a browser context applies to each page opened in it.
#[derive(Debug, Clone)]
pub struct PageDefaults {
    /// Scripts evaluated in every document before the page's own.
    pub init_scripts: Vec<String>,
    /// How many WebSocket routes are registered (the caller holds their
    /// patterns and handlers, in order).
    pub ws_routes: usize,
    /// Pages start offline.
    pub offline: bool,
    /// A geolocation override is set (the caller holds the coordinates).
    pub geolocation: bool,
    /// How many functions are exposed to pages (the caller holds them).
    pub exposed_functions: usize,
    /// How many bindings are exposed to pages (the caller holds them).
    pub exposed_bindings: usize,
    /// Pages bypass Content-Security-Policy.
    pub bypass_csp: bool,
    /// Basic-auth credentials sent with every request.
    pub http_credentials: Option<HttpCredentials>,
    /// Pages run JavaScript.
    pub javascript_enabled: bool,
    /// Whether pages may register service workers.
    pub service_workers: ServiceWorkersPolicy,
    /// Where pages save downloads.
    pub downloads_path: Option<String>,
}

impl PageDefaults {
    /// The settings of a plain context: nothing registered, online, no
    /// geolocation, CSP kept, no credentials, JavaScript on, service
    /// workers allowed, no download directory.
    pub fn new() -> (d: Self)
        ensures
            d.init_scripts@.len() == 0,
            d.ws_routes == 0,
            !d.offline,
            !d.geolocation,
            d.exposed_functions == 0,
            d.exposed_bindings == 0,
            !d.bypass_csp,
            d.http_credentials is None,
            d.javascript_enabled,
            d.service_workers == ServiceWorkersPolicy::Allow,
            d.downloads_path is None,
    {
        PageDefaults {
            init_scripts: Vec::new(),
            ws_routes: 0,
            offline: false,
            geolocation: false,
            exposed_functions: 0,
            exposed_bindings: 0,
            bypass_csp: false,
            http_credentials: None,
            javascript_enabled: true,
            service_workers: ServiceWorkersPolicy::Allow,
            downloads_path: None,
        }
    }

    /// The settings of a context made with `opts`: those of a plain context,
    /// with the options' CSP bypass, credentials, JavaScript switch,
    /// service-worker policy and download directory.
    pub fn from_options(opts: BrowserContextOptions) -> (d: Self)
        ensures
            d.init_scripts@.len() == 0,
            d.ws_routes == 0,
            !d.offline,
            !d.geolocation,
            d.exposed_functions == 0,
            d.exposed_bindings == 0,
            d.bypass_csp == opts.bypass_csp,
            d.http_credentials == opts.http_credentials,
            d.javascript_enabled == opts.javascript_enabled,
            d.service_workers == opts.service_workers,
            d.downloads_path == opts.downloads_path,
    {
        PageDefaults {
            init_scripts: Vec::new(),
            ws_routes: 0,
            offline: false,
            geolocation: false,
            exposed_functions: 0,
            exposed_bindings: 0,
            bypass_csp: opts.bypass_csp,
            http_credentials: opts.http_credentials,
            javascript_enabled: opts.javascript_enabled,
            service_workers: opts.service_workers,
            downloads_path: opts.downloads_path,
        }
    }
}

/// One thing done to a new page.
#[derive(Debug, Clone)]
pub enum PageSetupStep {
    /// Evaluate this script in every document before the page's own.
    AddInitScript(String),
    /// Install the WebSocket route registered at this position.
    RouteWebSocket(usize),
    /// Take the page offline.
    SetOffline,
    /// Apply the geolocation override.
    SetGeolocation,
    /// Expose the function registered at this position.
    ExposeFunction(usize),
    /// Expose the binding registered at this position.
    ExposeBinding(usize),
    /// Bypass Content-Security-Policy.
    BypassCsp,
    /// Turn JavaScript off.
    DisableJavascript,
    /// Send these credentials in an `Authorization` header.
    Authorize(HttpCredentials),
    /// Save downloads in this directory.
    SetDownloadBehavior(String),
}

/// A step as plain values.
pub ghost enum SpecStep {
    AddInitScript(Seq<char>),
    RouteWebSocket(nat),
    SetOffline,
    SetGeolocation,
    ExposeFunction(nat),
    ExposeBinding(nat),
    BypassCsp,
    DisableJavascript,
    Authorize(Seq<char>, Seq<char>),
    SetDownloadBehavior(Seq<char>),
}

impl View for PageSetupStep {
    type V = SpecStep;

    open spec fn view(&self) -> SpecStep {
        match self {
            PageSetupStep::AddInitScript(s) => SpecStep::AddInitScript(s@),
            PageSetupStep::RouteWebSocket(i) => SpecStep::RouteWebSocket(*i as nat),
            PageSetupStep::SetOffline => SpecStep::SetOffline,
            PageSetupStep::SetGeolocation => SpecStep::SetGeolocation,
            PageSetupStep::ExposeFunction(i) => SpecStep::ExposeFunction(*i as nat),
            PageSetupStep::ExposeBinding(i) => SpecStep::ExposeBinding(*i as nat),
            PageSetupStep::BypassCsp => SpecStep::BypassCsp,
            PageSetupStep::DisableJavascript => SpecStep::DisableJavascript,
            PageSetupStep::Authorize(c) => SpecStep::Authorize(c.username@, c.password@),
            PageSetupStep::SetDownloadBehavior(p) => SpecStep::SetDownloadBehavior(p@),
        }
    }
}

/// The views of a list of steps.
pub open spec fn steps_view(v: Seq<PageSetupStep>) -> Seq<SpecStep> {
    v.map_values(|s: PageSetupStep| s@)
}

/// `f(0), f(1), …, f(n - 1)`.
pub open spec fn indexed(n: nat, f: spec_fn(nat) -> SpecStep) -> Seq<SpecStep> {
    Seq::new(n, |i: int| f(i as nat))
}

/// The step for `flag` when it is set, else nothing.
pub open spec fn when(flag: bool, s: SpecStep) -> Seq<SpecStep> {
    if flag {
        seq![s]
    } else {
        seq![]
    }
}

/// The step sending credentials, when there are some.
pub open spec fn creds_part(c: Option<HttpCredentials>) -> Seq<SpecStep> {
    match c {
        Some(c) => seq![SpecStep::Authorize(c.username@, c.password@)],
        None => seq![],
    }
}

/// The step setting the download directory, when there is one.
pub open spec fn download_part(p: Option<String>) -> Seq<SpecStep> {
    match p {
        Some(p) => seq![SpecStep::SetDownloadBehavior(p@)],
        None => seq![],
    }
}

/// What is done to a new page, in order: the init scripts; the WebSocket
/// routes; offline mode; the geolocation override; the exposed functions;
/// the exposed bindings; the CSP bypass; turning JavaScript off; the
/// credentials; the init script that blocks service workers, under that
/// policy; the download directory.
pub open spec fn spec_page_setup(d: PageDefaults) -> Seq<SpecStep> {
    strs(d.init_scripts@).map_values(|s: Seq<char>| SpecStep::AddInitScript(s))
        + indexed(d.ws_routes as nat, |i: nat| SpecStep::RouteWebSocket(i))
        + when(d.offline, SpecStep::SetOffline)
        + when(d.geolocation, SpecStep::SetGeolocation)
        + indexed(d.exposed_functions as nat, |i: nat| SpecStep::ExposeFunction(i))
        + indexed(d.exposed_bindings as nat, |i: nat| SpecStep::ExposeBinding(i))
        + when(d.bypass_csp, SpecStep::BypassCsp)
        + when(!d.javascript_enabled, SpecStep::DisableJavascript)
        + creds_part(d.http_credentials)
        + when(
            d.service_workers == ServiceWorkersPolicy::Block,
            SpecStep::AddInitScript(SERVICE_WORKER_BLOCK_SCRIPT@),
        )
        + download_part(d.downloads_path)
}

fn push_step(out: &mut Vec<PageSetupStep>, s: PageSetupStep)
    ensures
        steps_view(final(out)@) == steps_view(old(out)@).push(s@),
{
    let ghost before = out@;
    out.push(s);
    assert(steps_view(out@) =~= steps_view(before).push(s@));
}

fn push_indexed(out: &mut Vec<PageSetupStep>, n: usize, kind: u8)
    requires
        kind < 3,
    ensures
        steps_view(final(out)@) == steps_view(old(out)@) + if kind == 0 {
            indexed(n as nat, |i: nat| SpecStep::RouteWebSocket(i))
        } else if kind == 1 {
            indexed(n as nat, |i: nat| SpecStep::ExposeFunction(i))
        } else {
            indexed(n as nat, |i: nat| SpecStep::ExposeBinding(i))
        },
{
    let ghost f: spec_fn(nat) -> SpecStep = if kind == 0 {
        |i: nat| SpecStep::RouteWebSocket(i)
    } else if kind == 1 {
        |i: nat| SpecStep::ExposeFunction(i)
    } else {
        |i: nat| SpecStep::ExposeBinding(i)
    };
    let ghost start = steps_view(out@);
    let mut i: usize = 0;
    while i < n
        invariant
            i <= n,
            kind < 3,
            f == (if kind == 0 {
                |i: nat| SpecStep::RouteWebSocket(i)
            } else if kind == 1 {
                |i: nat| SpecStep::ExposeFunction(i)
            } else {
                |i: nat| SpecStep::ExposeBinding(i)
            }),
            steps_view(out@) == start + indexed(i as nat, f),
        decreases n - i,
    {
        let s = if kind == 0 {
            PageSetupStep::RouteWebSocket(i)
        } else if kind == 1 {
            PageSetupStep::ExposeFunction(i)
        } else {
            PageSetupStep::ExposeBinding(i)
        };
        assert(s@ == f(i as nat));
        push_step(out, s);
        assert(indexed((i + 1) as nat, f) =~= indexed(i as nat, f).push(f(i as nat)));
        i = i + 1;
    }
}

fn push_when(out: &mut Vec<PageSetupStep>, flag: bool, s: PageSetupStep)
    ensures
        steps_view(final(out)@) == steps_view(old(out)@) + when(flag, s@),
{
    let ghost before = steps_view(out@);
    if flag {
        push_step(out, s);
    }
    assert(steps_view(out@) =~= before + when(flag, s@));
}

fn push_scripts(out: &mut Vec<PageSetupStep>, scripts: &Vec<String>)
    ensures
        steps_view(final(out)@) == steps_view(old(out)@) + strs(scripts@).map_values(
            |s: Seq<char>| SpecStep::AddInitScript(s),
        ),
{
    let ghost start = steps_view(out@);
    let mut k: usize = 0;
    while k < scripts.len()
        invariant
            k <= scripts@.len(),
            steps_view(out@) == start + strs(scripts@.take(k as int)).map_values(
                |s: Seq<char>| SpecStep::AddInitScript(s),
            ),
        decreases scripts@.len() - k,
    {
        let script = scripts[k].clone();
        push_step(out, PageSetupStep::AddInitScript(script));
        assert(strs(scripts@.take(k + 1)).map_values(|s: Seq<char>| SpecStep::AddInitScript(s))
            =~= strs(scripts@.take(k as int)).map_values(
            |s: Seq<char>| SpecStep::AddInitScript(s),
        ).push(SpecStep::AddInitScript(scripts@[k as int]@)));
        k = k + 1;
    }
    assert(scripts@.take(k as int) =~= scripts@);
}

fn push_creds(out: &mut Vec<PageSetupStep>, creds: &Option<HttpCredentials>)
    ensures
        steps_view(final(out)@) == steps_view(old(out)@) + creds_part(*creds),
{
    let ghost before = steps_view(out@);
    match creds {
        Some(c) => {
            let copy = HttpCredentials { username: c.username.clone(), password: c.password.clone() };
            push_step(out, PageSetupStep::Authorize(copy));
        },
        None => {},
    }
    assert(steps_view(out@) =~= before + creds_part(*creds));
}

fn push_download(out: &mut Vec<PageSetupStep>, path: &Option<String>)
    ensures
        steps_view(final(out)@) == steps_view(old(out)@) + download_part(*path),
{
    let ghost before = steps_view(out@);
    match path {
        Some(p) => {
            push_step(out, PageSetupStep::SetDownloadBehavior(p.clone()));
        },
        None => {},
    }
    assert(steps_view(out@) =~= before + download_part(*path));
}

/// What is done to a page opened in a context with settings `d`.
pub fn page_setup(d: &PageDefaults) -> (v: Vec<PageSetupStep>)
    ensures
        steps_view(v@) == spec_page_setup(*d),
{
    let mut v: Vec<PageSetupStep> = Vec::new();
    assert(steps_view(v@) =~= seq![]);
    push_scripts(&mut v, &d.init_scripts);
    push_indexed(&mut v, d.ws_routes, 0);
    push_when(&mut v, d.offline, PageSetupStep::SetOffline);
    push_when(&mut v, d.geolocation, PageSetupStep::SetGeolocation);
    push_indexed(&mut v, d.exposed_functions, 1);
    push_indexed(&mut v, d.exposed_bindings, 2);
    push_when(&mut v, d.bypass_csp, PageSetupStep::BypassCsp);
    push_when(&mut v, !d.javascript_enabled, PageSetupStep::DisableJavascript);
    push_creds(&mut v, &d.http_credentials);
    let block = matches!(d.service_workers, ServiceWorkersPolicy::Block);
    push_when(&mut v, block, PageSetupStep::AddInitScript(SERVICE_WORKER_BLOCK_SCRIPT.to_owned()));
    push_download(&mut v, &d.downloads_path);
    assert(seq![] + strs(d.init_scripts@).map_values(|s: Seq<char>| SpecStep::AddInitScript(s))
        =~= strs(d.init_scripts@).map_values(|s: Seq<char>| SpecStep::AddInitScript(s)));
    v
}

} // verus!
