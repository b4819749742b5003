//! The browser's command line: the default flags, the headless flags, the
//! whole argument list built from launch settings, and the plan for finding
//! an executable.

use vstd::prelude::*;

use crate::num::{decimal, digits_value, is_digit, law_decimal_spells_its_number, u64_to_decimal};
use crate::options::{DetectionOptions, HeadlessMode};
use crate::pdl::strs;
use crate::text::{chars_of, find, find_chars, has_prefix, lemma_find, occurs_at, push_str, slice_chars, string_of, trim, trim_chars};

verus! {

// ---------------------------------------------------------------------------
// Fixed flag lists
// ---------------------------------------------------------------------------

/// The flags every launched browser gets unless they are switched off.
pub open spec fn spec_default_args() -> Seq<Seq<char>> {
    seq![
        "--disable-background-networking"@,
        "--enable-features=NetworkService,NetworkServiceInProcess"@,
        "--disable-background-timer-throttling"@,
        "--disable-backgrounding-occluded-windows"@,
        "--disable-breakpad"@,
        "--disable-client-side-phishing-detection"@,
        "--disable-component-extensions-with-background-pages"@,
        "--disable-default-apps"@,
        "--disable-dev-shm-usage"@,
        "--disable-extensions"@,
        "--disable-features=TranslateUI,BlinkGenPropertyTrees"@,
        "--disable-hang-monitor"@,
        "--disable-ipc-flooding-protection"@,
        "--disable-popup-blocking"@,
        "--disable-prompt-on-repost"@,
        "--disable-renderer-backgrounding"@,
        "--disable-sync"@,
        "--force-color-profile=srgb"@,
        "--metrics-recording-only"@,
        "--no-first-run"@,
        "--enable-automation"@,
        "--password-store=basic"@,
        "--use-mock-keychain"@,
    ]
}

/// The flags of the modern headless mode.
pub open spec fn spec_headless_args() -> Seq<Seq<char>> {
    seq!["--headless=new"@, "--hide-scrollbars"@, "--mute-audio"@]
}

/// The views of a list of string slices.
pub open spec fn str_views(v: Seq<&str>) -> Seq<Seq<char>> {
    v.map_values(|s: &str| s@)
}

/// Every entry is a `--` flag and no entry occurs twice.
pub open spec fn distinct_flags(v: Seq<Seq<char>>) -> bool {
    &&& forall|i: int| 0 <= i < v.len() ==> has_prefix(#[trigger] v[i], "--"@)
    &&& forall|i: int, j: int| 0 <= i < j < v.len() ==> v[i] != v[j]
}

/// The default flags. Each is a `--` flag and none occurs twice.
pub fn default_args() -> (v: Vec<&'static str>)
    ensures
        str_views(v@) == spec_default_args(),
        distinct_flags(str_views(v@)),
{
    let v = vec![
        "--disable-background-networking",
        "--enable-features=NetworkService,NetworkServiceInProcess",
        "--disable-background-timer-throttling",
        "--disable-backgrounding-occluded-windows",
        "--disable-breakpad",
        "--disable-client-side-phishing-detection",
        "--disable-component-extensions-with-background-pages",
        "--disable-default-apps",
        "--disable-dev-shm-usage",
        "--disable-extensions",
        "--disable-features=TranslateUI,BlinkGenPropertyTrees",
        "--disable-hang-monitor",
        "--disable-ipc-flooding-protection",
        "--disable-popup-blocking",
        "--disable-prompt-on-repost",
        "--disable-renderer-backgrounding",
        "--disable-sync",
        "--force-color-profile=srgb",
        "--metrics-recording-only",
        "--no-first-run",
        "--enable-automation",
        "--password-store=basic",
        "--use-mock-keychain",
    ];
    proof {
        assert(str_views(v@) =~= spec_default_args());
        lemma_default_args_distinct();
    }
    v
}

/// The flags of the modern headless mode. Each is a `--` flag and none
/// occurs twice.
pub fn headless_args() -> (v: Vec<&'static str>)
    ensures
        str_views(v@) == spec_headless_args(),
        distinct_flags(str_views(v@)),
{
    let v = vec!["--headless=new", "--hide-scrollbars", "--mute-audio"];
    proof {
        assert(str_views(v@) =~= spec_headless_args());
        reveal_strlit("--headless=new");
        reveal_strlit("--hide-scrollbars");
        reveal_strlit("--mute-audio");
        reveal_strlit("--");
        let h = spec_headless_args();
        assert(h[0][11] != h[1][11]);
        assert(h[0][2] != h[2][2]);
        assert(h[1][2] != h[2][2]);
        assert(h[0].take(2) =~= "--"@);
        assert(h[1].take(2) =~= "--"@);
        assert(h[2].take(2) =~= "--"@);
    }
    v
}

proof fn lemma_default_args_distinct()
    ensures
        distinct_flags(spec_default_args()),
{
    reveal_strlit("--");
    reveal_strlit("--disable-background-networking");
    reveal_strlit("--enable-features=NetworkService,NetworkServiceInProcess");
    reveal_strlit("--disable-background-timer-throttling");
    reveal_strlit("--disable-backgrounding-occluded-windows");
    reveal_strlit("--disable-breakpad");
    reveal_strlit("--disable-client-side-phishing-detection");
    reveal_strlit("--disable-component-extensions-with-background-pages");
    reveal_strlit("--disable-default-apps");
    reveal_strlit("--disable-dev-shm-usage");
    reveal_strlit("--disable-extensions");
    reveal_strlit("--disable-features=TranslateUI,BlinkGenPropertyTrees");
    reveal_strlit("--disable-hang-monitor");
    reveal_strlit("--disable-ipc-flooding-protection");
    reveal_strlit("--disable-popup-blocking");
    reveal_strlit("--disable-prompt-on-repost");
    reveal_strlit("--disable-renderer-backgrounding");
    reveal_strlit("--disable-sync");
    reveal_strlit("--force-color-profile=srgb");
    reveal_strlit("--metrics-recording-only");
    reveal_strlit("--no-first-run");
    reveal_strlit("--enable-automation");
    reveal_strlit("--password-store=basic");
    reveal_strlit("--use-mock-keychain");
    let d = spec_default_args();
    assert forall|i: int| 0 <= i < d.len() implies has_prefix(#[trigger] d[i], "--"@) by {
        assert(d[i][0] == '-' && d[i][1] == '-');
        assert(d[i].take(2) =~= "--"@);
    }
    assert forall|i: int, j: int| 0 <= i < j < d.len() implies d[i] != d[j] by {
        if d[i] == d[j] {
            assert(d[i].len() == d[j].len());
            assert(d[i][2] == d[j][2]);
            assert(d[i][3] == d[j][3]);
            assert(d[i][9] == d[j][9]);
            assert(d[i][10] == d[j][10]);
            assert(d[i][11] == d[j][11]);
            assert(d[i][12] == d[j][12]);
        }
    }
}


// ---------------------------------------------------------------------------
// The whole command line
// ---------------------------------------------------------------------------

/// What the browser's command line is built from.
#[derive(Debug, Clone)]
pub struct LaunchSettings {
    /// Talk to the browser over OS pipes instead of a debugging port.
    pub use_pipe: bool,
    /// The `--remote-debugging-port`; `0` lets the browser pick one.
    pub port: u16,
    /// Keep the sandbox; when `false`, `--no-sandbox` is passed.
    pub sandbox: bool,
    /// Window size `(width, height)`, taking precedence over the viewport.
    pub window_size: Option<(u32, u32)>,
    /// Viewport size `(width, height)` of new pages.
    pub viewport_size: Option<(u32, u32)>,
    /// Pass `--incognito`.
    pub incognito: bool,
    /// Unpacked extensions to load.
    pub extensions: Vec<String>,
    /// Leave out the default flags entirely.
    pub ignore_default_args: bool,
    /// Default flags to leave out.
    pub disable_default_args: Vec<String>,
    /// How to run the renderer.
    pub headless: HeadlessMode,
    /// Proxy server for the whole browser.
    pub proxy_server: Option<String>,
    /// Hosts that bypass the proxy.
    pub proxy_bypass_list: Option<String>,
    /// Extra arguments appended after everything else.
    pub args: Vec<String>,
}

/// The entries of `v` joined with `sep` between them (`[T]::join`).
pub open spec fn join_with(v: Seq<Seq<char>>, sep: Seq<char>) -> Seq<char>
    decreases v.len(),
{
    if v.len() == 0 {
        seq![]
    } else if v.len() == 1 {
        v[0]
    } else {
        join_with(v.drop_last(), sep) + sep + v.last()
    }
}

/// The entries of `flags` that `disabled` does not list, in order.
pub open spec fn enabled_flags(flags: Seq<Seq<char>>, disabled: Seq<Seq<char>>) -> Seq<Seq<char>>
    decreases flags.len(),
{
    if flags.len() == 0 {
        seq![]
    } else {
        let rest = enabled_flags(flags.drop_last(), disabled);
        if disabled.contains(flags.last()) {
            rest
        } else {
            rest.push(flags.last())
        }
    }
}

/// `--window-size=<w>,<h>`.
pub open spec fn window_size_flag(w: u32, h: u32) -> Seq<char> {
    "--window-size="@ + decimal(w as nat) + ","@ + decimal(h as nat)
}

/// The flags of a headless mode.
pub open spec fn headless_flags(m: HeadlessMode) -> Seq<Seq<char>> {
    match m {
        HeadlessMode::New => spec_headless_args(),
        HeadlessMode::Legacy => seq!["--headless"@, "--hide-scrollbars"@, "--mute-audio"@],
        HeadlessMode::False => seq![],
    }
}

/// The debugging-port flag, unless pipes are used.
pub open spec fn port_part(s: LaunchSettings) -> Seq<Seq<char>> {
    if s.use_pipe {
        seq![]
    } else {
        seq!["--remote-debugging-port="@ + decimal(s.port as nat)]
    }
}

/// `--no-sandbox` when the sandbox is off.
pub open spec fn sandbox_part(s: LaunchSettings) -> Seq<Seq<char>> {
    if s.sandbox {
        seq![]
    } else {
        seq!["--no-sandbox"@]
    }
}

/// The window size: the explicit one, else the viewport's, else none.
pub open spec fn window_part(s: LaunchSettings) -> Seq<Seq<char>> {
    match s.window_size {
        Some((w, h)) => seq![window_size_flag(w, h)],
        None => match s.viewport_size {
            Some((w, h)) => seq![window_size_flag(w, h)],
            None => seq![],
        },
    }
}

/// `--incognito` when asked for.
pub open spec fn incognito_part(s: LaunchSettings) -> Seq<Seq<char>> {
    if s.incognito {
        seq!["--incognito"@]
    } else {
        seq![]
    }
}

/// The extension flags, when there are extensions.
pub open spec fn extensions_part(s: LaunchSettings) -> Seq<Seq<char>> {
    if s.extensions@.len() == 0 {
        seq![]
    } else {
        seq![
            "--load-extension="@ + join_with(strs(s.extensions@), ","@),
            "--disable-extensions-except="@ + join_with(strs(s.extensions@), ","@),
        ]
    }
}

/// The default flags that are not switched off.
pub open spec fn defaults_part(s: LaunchSettings) -> Seq<Seq<char>> {
    if s.ignore_default_args {
        seq![]
    } else {
        enabled_flags(spec_default_args(), strs(s.disable_default_args@))
    }
}

/// The proxy flags that are set.
pub open spec fn proxy_part(s: LaunchSettings) -> Seq<Seq<char>> {
    let proxy = match s.proxy_server {
        Some(p) => seq!["--proxy-server="@ + p@],
        None => seq![],
    };
    let bypass = match s.proxy_bypass_list {
        Some(b) => seq!["--proxy-bypass-list="@ + b@],
        None => seq![],
    };
    proxy + bypass
}

/// The browser's command-line arguments for `s`, with the profile in
/// `user_data_dir`: the debugging port (unless pipes are used), the
/// profile, `--no-sandbox`, the window size, `--incognito`, the
/// extensions, the default flags that are not switched off, the headless
/// flags, the proxy settings, the caller's own arguments, and last
/// `about:blank`.
pub open spec fn spec_launch_args(s: LaunchSettings, user_data_dir: Seq<char>) -> Seq<Seq<char>> {
    port_part(s) + seq!["--user-data-dir="@ + user_data_dir] + sandbox_part(s) + window_part(s)
        + incognito_part(s) + extensions_part(s) + defaults_part(s) + headless_flags(s.headless)
        + proxy_part(s) + strs(s.args@) + seq!["about:blank"@]
}

fn concat_str(a: &str, b: &str) -> (s: String)
    ensures
        s@ == a@ + b@,
{
    let mut s = a.to_owned();
    push_str(&mut s, b);
    s
}

fn push_arg(out: &mut Vec<String>, a: String)
    ensures
        strs(final(out)@) == strs(old(out)@).push(a@),
{
    out.push(a);
    proof {
        assert(strs(out@) =~= strs(old(out)@).push(a@));
    }
}

fn push_all(out: &mut Vec<String>, more: &Vec<String>)
    ensures
        strs(final(out)@) == strs(old(out)@) + strs(more@),
{
    let mut i: usize = 0;
    while i < more.len()
        invariant
            i <= more@.len(),
            strs(out@) == strs(old(out)@) + strs(more@).take(i as int),
        decreases more@.len() - i,
    {
        let a = more[i].clone();
        push_arg(out, a);
        proof {
            assert(strs(more@).take(i + 1) =~= strs(more@).take(i as int).push(more@[i as int]@));
        }
        i = i + 1;
    }
    proof {
        assert(strs(more@).take(more@.len() as int) =~= strs(more@));
    }
}

fn push_strs(out: &mut Vec<String>, more: &Vec<&'static str>)
    ensures
        strs(final(out)@) == strs(old(out)@) + str_views(more@),
{
    let mut i: usize = 0;
    while i < more.len()
        invariant
            i <= more@.len(),
            strs(out@) == strs(old(out)@) + str_views(more@).take(i as int),
        decreases more@.len() - i,
    {
        push_arg(out, more[i].to_owned());
        proof {
            assert(str_views(more@).take(i + 1) =~= str_views(more@).take(i as int).push(
                more@[i as int]@,
            ));
        }
        i = i + 1;
    }
    proof {
        assert(str_views(more@).take(more@.len() as int) =~= str_views(more@));
    }
}

fn window_flag(w: u32, h: u32) -> (s: String)
    ensures
        s@ == window_size_flag(w, h),
{
    let mut s = "--window-size=".to_owned();
    let ws = u64_to_decimal(w as u64);
    push_str(&mut s, ws.as_str());
    push_str(&mut s, ",");
    let hs = u64_to_decimal(h as u64);
    push_str(&mut s, hs.as_str());
    s
}

/// The entries of `v` joined with `sep` between them.
pub(crate) fn joined(v: &Vec<String>, sep: &str) -> (s: String)
    ensures
        s@ == join_with(strs(v@), sep@),
{
    let mut s = String::new();
    let mut i: usize = 0;
    while i < v.len()
        invariant
            i <= v@.len(),
            s@ == join_with(strs(v@).take(i as int), sep@),
        decreases v@.len() - i,
    {
        proof {
            assert(strs(v@).take(i + 1).drop_last() =~= strs(v@).take(i as int));
        }
        if i > 0 {
            push_str(&mut s, sep);
        } else {
            assert(s@ =~= seq![]);
        }
        push_str(&mut s, v[i].as_str());
        i = i + 1;
    }
    proof {
        assert(strs(v@).take(v@.len() as int) =~= strs(v@));
    }
    s
}

/// Whether `x` is one of the entries of `v`.
pub(crate) fn listed(v: &Vec<String>, x: &str) -> (b: bool)
    ensures
        b == strs(v@).contains(x@),
{
    let mut i: usize = 0;
    while i < v.len()
        invariant
            i <= v@.len(),
            forall|j: int| 0 <= j < i ==> strs(v@)[j] != x@,
        decreases v@.len() - i,
    {
        if crate::text::eq_str(crate::text::chars_of(v[i].as_str()).as_slice(), x) {
            assert(strs(v@)[i as int] == x@);
            return true;
        }
        i = i + 1;
    }
    false
}

fn push_enabled_defaults(out: &mut Vec<String>, disabled: &Vec<String>)
    ensures
        strs(final(out)@) == strs(old(out)@) + enabled_flags(spec_default_args(), strs(disabled@)),
{
    let defaults = default_args();
    let ghost d = strs(disabled@);
    let mut i: usize = 0;
    while i < defaults.len()
        invariant
            i <= defaults@.len(),
            str_views(defaults@) == spec_default_args(),
            d == strs(disabled@),
            strs(out@) == strs(old(out)@) + enabled_flags(
                spec_default_args().take(i as int),
                d,
            ),
        decreases defaults@.len() - i,
    {
        proof {
            assert(spec_default_args().take(i + 1).drop_last() =~= spec_default_args().take(
                i as int,
            ));
        }
        let a = defaults[i];
        if !listed(disabled, a) {
            push_arg(out, a.to_owned());
        }
        i = i + 1;
    }
    proof {
        assert(spec_default_args().take(defaults@.len() as int) =~= spec_default_args());
    }
}

fn push_head(out: &mut Vec<String>, s: &LaunchSettings, user_data_dir: &str)
    ensures
        strs(final(out)@) == strs(old(out)@) + port_part(*s) + seq!["--user-data-dir="@ + user_data_dir@]
            + sandbox_part(*s) + window_part(*s) + incognito_part(*s),
{
    let ghost o = strs(out@);
    if !s.use_pipe {
        let p = u64_to_decimal(s.port as u64);
        push_arg(out, concat_str("--remote-debugging-port=", p.as_str()));
    }
    assert(strs(out@) == o + port_part(*s));
    push_arg(out, concat_str("--user-data-dir=", user_data_dir));
    if !s.sandbox {
        push_arg(out, "--no-sandbox".to_owned());
    }
    let ghost o2 = strs(out@);
    match s.window_size {
        Some((w, h)) => push_arg(out, window_flag(w, h)),
        None => match s.viewport_size {
            Some((w, h)) => push_arg(out, window_flag(w, h)),
            None => {},
        },
    }
    assert(strs(out@) == o2 + window_part(*s));
    if s.incognito {
        push_arg(out, "--incognito".to_owned());
    }
}

fn push_tail(out: &mut Vec<String>, s: &LaunchSettings)
    ensures
        strs(final(out)@) == strs(old(out)@) + extensions_part(*s) + defaults_part(*s)
            + headless_flags(s.headless) + proxy_part(*s),
{
    let ghost o = strs(out@);
    if s.extensions.len() > 0 {
        let list = joined(&s.extensions, ",");
        push_arg(out, concat_str("--load-extension=", list.as_str()));
        push_arg(out, concat_str("--disable-extensions-except=", list.as_str()));
    }
    assert(strs(out@) == o + extensions_part(*s));
    let ghost o1 = strs(out@);
    if !s.ignore_default_args {
        push_enabled_defaults(out, &s.disable_default_args);
    }
    assert(strs(out@) == o1 + defaults_part(*s));
    let ghost o2 = strs(out@);
    match s.headless {
        HeadlessMode::New => {
            let h = headless_args();
            push_strs(out, &h);
        },
        HeadlessMode::Legacy => {
            push_arg(out, "--headless".to_owned());
            push_arg(out, "--hide-scrollbars".to_owned());
            push_arg(out, "--mute-audio".to_owned());
        },
        HeadlessMode::False => {},
    }
    assert(strs(out@) == o2 + headless_flags(s.headless));
    let ghost o3 = strs(out@);
    match &s.proxy_server {
        Some(p) => push_arg(out, concat_str("--proxy-server=", p.as_str())),
        None => {},
    }
    match &s.proxy_bypass_list {
        Some(b) => push_arg(out, concat_str("--proxy-bypass-list=", b.as_str())),
        None => {},
    }
    assert(strs(out@) == o3 + proxy_part(*s));
}

/// The browser's command-line arguments for `s`, with the profile in
/// `user_data_dir`.
pub fn launch_args(s: &LaunchSettings, user_data_dir: &str) -> (v: Vec<String>)
    ensures
        strs(v@) == spec_launch_args(*s, user_data_dir@),
{
    let mut out: Vec<String> = Vec::new();
    assert(strs(out@) =~= seq![]);
    push_head(&mut out, s, user_data_dir);
    push_tail(&mut out, s);
    push_all(&mut out, &s.args);
    push_arg(&mut out, "about:blank".to_owned());
    proof {
        assert(strs(out@) =~= spec_launch_args(*s, user_data_dir@));
    }
    out
}


proof fn lemma_enabled_flags_contains(flags: Seq<Seq<char>>, disabled: Seq<Seq<char>>, a: Seq<char>)
    requires
        flags.contains(a),
        !disabled.contains(a),
    ensures
        enabled_flags(flags, disabled).contains(a),
    decreases flags.len(),
{
    let rest = enabled_flags(flags.drop_last(), disabled);
    if flags.last() == a {
        assert(rest.push(a)[rest.len() as int] == a);
    } else {
        let k = choose|k: int| 0 <= k < flags.len() && flags[k] == a;
        assert(flags.drop_last()[k] == a);
        lemma_enabled_flags_contains(flags.drop_last(), disabled, a);
        let j = choose|j: int| 0 <= j < rest.len() && rest[j] == a;
        if !disabled.contains(flags.last()) {
            assert(rest.push(flags.last())[j] == a);
        }
    }
}

/// Without pipes the browser's first argument is `--remote-debugging-port=`
/// followed by decimal digits that spell the configured port, whatever the
/// port; with pipes the profile directory comes first and no port is named.
pub proof fn law_debugging_port_is_the_configured_one(s: LaunchSettings, user_data_dir: Seq<char>)
    ensures
        !s.use_pipe ==> {
            let a = spec_launch_args(s, user_data_dir)[0];
            &&& has_prefix(a, "--remote-debugging-port="@)
            &&& a.len() > 24
            &&& digits_value(a.skip(24)) == s.port
            &&& forall|i: int| 24 <= i < a.len() ==> is_digit(#[trigger] a[i])
        },
        s.use_pipe ==> spec_launch_args(s, user_data_dir)[0] == "--user-data-dir="@ + user_data_dir,
{
    reveal_strlit("--remote-debugging-port=");
    let args = spec_launch_args(s, user_data_dir);
    if !s.use_pipe {
        let d = decimal(s.port as nat);
        let a = "--remote-debugging-port="@ + d;
        assert(args[0] == a);
        law_decimal_spells_its_number(s.port as nat);
        assert(a.skip(24) =~= d);
        assert(a.take(24) =~= "--remote-debugging-port="@);
        assert forall|i: int| 24 <= i < a.len() implies is_digit(#[trigger] a[i]) by {
            assert(a[i] == d[i - 24]);
        }
    } else {
        assert(args[0] == "--user-data-dir="@ + user_data_dir);
    }
}

/// On Windows the detection plan looks, right after the `CHROME` and
/// `CHROMIUM` variables, at the standard Chrome installs under
/// `C:\Program Files` and `C:\Program Files (x86)` and at Chromium's, and at
/// the two Edge installs exactly when Edge is wanted.
pub proof fn law_windows_plan_probes_standard_installs(opts: DetectionOptions)
    ensures
        ({
            let p = spec_detection_plan(opts, TargetOs::Windows);
            &&& p.len() >= 5
            &&& p[0] == SpecProbe::EnvVar("CHROME"@)
            &&& p[1] == SpecProbe::EnvVar("CHROMIUM"@)
            &&& p[2] == SpecProbe::File("C:\\Program Files\\Google\\Chrome\\Application\\chrome.exe"@)
            &&& p[3] == SpecProbe::File("C:\\Program Files (x86)\\Google\\Chrome\\Application\\chrome.exe"@)
            &&& p[4] == SpecProbe::File("C:\\Program Files\\Chromium\\Application\\chrome.exe"@)
            &&& p.contains(SpecProbe::File("C:\\Program Files (x86)\\Microsoft\\Edge\\Application\\msedge.exe"@))
                == opts.msedge
            &&& p.contains(SpecProbe::File("C:\\Program Files\\Microsoft\\Edge\\Application\\msedge.exe"@))
                == opts.msedge
        }),
{
    reveal_strlit("CHROME");
    reveal_strlit("CHROMIUM");
    reveal_strlit("C:\\Program Files\\Google\\Chrome\\Application\\chrome.exe");
    reveal_strlit("C:\\Program Files (x86)\\Google\\Chrome\\Application\\chrome.exe");
    reveal_strlit("C:\\Program Files\\Chromium\\Application\\chrome.exe");
    reveal_strlit("C:\\Program Files (x86)\\Microsoft\\Edge\\Application\\msedge.exe");
    reveal_strlit("C:\\Program Files\\Microsoft\\Edge\\Application\\msedge.exe");
    let p = spec_detection_plan(opts, TargetOs::Windows);
    let e1 = SpecProbe::File("C:\\Program Files (x86)\\Microsoft\\Edge\\Application\\msedge.exe"@);
    let e2 = SpecProbe::File("C:\\Program Files\\Microsoft\\Edge\\Application\\msedge.exe"@);
    assert(p[2] == SpecProbe::File("C:\\Program Files\\Google\\Chrome\\Application\\chrome.exe"@));
    assert(p[3] == SpecProbe::File("C:\\Program Files (x86)\\Google\\Chrome\\Application\\chrome.exe"@));
    assert(p[4] == SpecProbe::File("C:\\Program Files\\Chromium\\Application\\chrome.exe"@));
    if opts.msedge {
        assert(p.len() == 7);
        assert(p[5] == e1);
        assert(p[6] == e2);
    } else {
        assert(p.len() == 5);
        assert forall|i: int| 0 <= i < p.len() implies p[i] != e1 && p[i] != e2 by {
            if i == 2 {
                assert("C:\\Program Files\\Google\\Chrome\\Application\\chrome.exe"@.len() == 53);
            } else if i == 3 {
                assert("C:\\Program Files (x86)\\Google\\Chrome\\Application\\chrome.exe"@.len() == 59);
            } else if i == 4 {
                assert("C:\\Program Files\\Chromium\\Application\\chrome.exe"@.len() == 48);
            }
            assert("C:\\Program Files (x86)\\Microsoft\\Edge\\Application\\msedge.exe"@.len() == 60);
            assert("C:\\Program Files\\Microsoft\\Edge\\Application\\msedge.exe"@.len() == 54);
        }
    }
}

/// On macOS and Linux the plan, right after the two variables, looks for
/// the standard Chrome install (the app bundle; `google-chrome` on the
/// `PATH`), later also at the usual file locations, and includes Edge when
/// Edge is wanted and Canary when unstable channels are.
pub proof fn law_unix_plans_probe_standard_installs(opts: DetectionOptions)
    ensures
        ({
            let p = spec_detection_plan(opts, TargetOs::MacOs);
            &&& p[2] == SpecProbe::File("/Applications/Google Chrome.app/Contents/MacOS/Google Chrome"@)
            &&& p.contains(SpecProbe::File("/Applications/Chromium.app/Contents/MacOS/Chromium"@))
            &&& opts.unstable ==> p.contains(
                SpecProbe::File("/Applications/Google Chrome Canary.app/Contents/MacOS/Google Chrome Canary"@),
            )
            &&& opts.msedge ==> p.contains(SpecProbe::File("/Applications/Microsoft Edge.app/Contents/MacOS/Microsoft Edge"@))
        }),
        ({
            let p = spec_detection_plan(opts, TargetOs::Linux);
            &&& p[2] == SpecProbe::OnPath("google-chrome"@)
            &&& p.contains(SpecProbe::OnPath("chromium"@))
            &&& p.contains(SpecProbe::File("/usr/bin/google-chrome"@))
            &&& p.contains(SpecProbe::File("/usr/bin/chromium"@))
            &&& opts.msedge ==> p.contains(SpecProbe::OnPath("microsoft-edge"@))
        }),
{
    let m = spec_detection_plan(opts, TargetOs::MacOs);
    assert(m[3] == SpecProbe::File("/Applications/Chromium.app/Contents/MacOS/Chromium"@));
    if opts.unstable {
        assert(m[5] == SpecProbe::File("/Applications/Google Chrome Canary.app/Contents/MacOS/Google Chrome Canary"@));
    }
    if opts.msedge {
        let k = if opts.unstable { 6int } else { 5int };
        assert(m[k] == SpecProbe::File("/Applications/Microsoft Edge.app/Contents/MacOS/Microsoft Edge"@));
    }
    let l = spec_detection_plan(opts, TargetOs::Linux);
    assert(l[3] == SpecProbe::OnPath("chromium"@));
    let f = if opts.msedge { 9int } else { 6int };
    assert(l[f] == SpecProbe::File("/usr/bin/google-chrome"@));
    assert(l[f + 1] == SpecProbe::File("/usr/bin/chromium"@));
    if opts.msedge {
        assert(l[6] == SpecProbe::OnPath("microsoft-edge"@));
    }
}

/// The browser's arguments carry the settings: the profile directory right
/// after the port (first with pipes), `--no-sandbox` when the sandbox is
/// off, the window size, `--incognito` when asked for, the caller's own
/// arguments in order just before the last one, and `about:blank` last.
pub proof fn law_launch_args_carry_settings(s: LaunchSettings, user_data_dir: Seq<char>)
    ensures
        ({
            let a = spec_launch_args(s, user_data_dir);
            let n = a.len();
            let extra = strs(s.args@);
            &&& a[if s.use_pipe { 0int } else { 1int }] == "--user-data-dir="@ + user_data_dir
            &&& !s.sandbox ==> a.contains("--no-sandbox"@)
            &&& s.incognito ==> a.contains("--incognito"@)
            &&& (s.window_size matches Some((w, h)) ==> a.contains(window_size_flag(w, h)))
            &&& n >= extra.len() + 1
            &&& a.subrange(n - 1 - extra.len(), n - 1) == extra
            &&& a[n - 1] == "about:blank"@
        }),
{
    let a = spec_launch_args(s, user_data_dir);
    let p: int = port_part(s).len() as int;
    let i0: int = p + 1;
    let i1: int = i0 + sandbox_part(s).len();
    let i2: int = i1 + window_part(s).len();
    if !s.sandbox {
        assert(a[i0] == "--no-sandbox"@);
    }
    if let Some((w, h)) = s.window_size {
        assert(a[i1] == window_size_flag(w, h));
    }
    if s.incognito {
        assert(a[i2] == "--incognito"@);
    }
    let extra = strs(s.args@);
    let n = a.len();
    assert(a.subrange(n - 1 - extra.len(), n - 1) =~= extra);
}

/// Unless the default flags are ignored, every default flag that is not
/// switched off is among the browser's arguments.
pub proof fn law_enabled_default_flags_are_passed(s: LaunchSettings, user_data_dir: Seq<char>, a: Seq<char>)
    requires
        !s.ignore_default_args,
        spec_default_args().contains(a),
        !strs(s.disable_default_args@).contains(a),
    ensures
        spec_launch_args(s, user_data_dir).contains(a),
{
    lemma_enabled_flags_contains(spec_default_args(), strs(s.disable_default_args@), a);
    let d = defaults_part(s);
    let j = choose|j: int| 0 <= j < d.len() && d[j] == a;
    let pre = port_part(s) + seq!["--user-data-dir="@ + user_data_dir] + sandbox_part(s)
        + window_part(s) + incognito_part(s) + extensions_part(s);
    let full = spec_launch_args(s, user_data_dir);
    assert(full[pre.len() + j] == a);
}

/// A switched-off default flag is never among the default flags passed.
pub proof fn law_disabled_default_flags_are_dropped(flags: Seq<Seq<char>>, disabled: Seq<Seq<char>>, a: Seq<char>)
    requires
        disabled.contains(a),
    ensures
        !enabled_flags(flags, disabled).contains(a),
    decreases flags.len(),
{
    if flags.len() > 0 {
        law_disabled_default_flags_are_dropped(flags.drop_last(), disabled, a);
        let rest = enabled_flags(flags.drop_last(), disabled);
        if enabled_flags(flags, disabled).contains(a) {
            let j = choose|j: int|
                0 <= j < enabled_flags(flags, disabled).len() && enabled_flags(flags, disabled)[j]
                    == a;
            if !disabled.contains(flags.last()) && j < rest.len() {
                assert(rest[j] == a);
            }
        }
    }
}

// ---------------------------------------------------------------------------
// The browser's stderr while it starts
// ---------------------------------------------------------------------------

/// How many stderr lines of a starting browser are kept for a launch error.
pub const MAX_STDERR_LINES: usize = 200;

/// The DevTools WebSocket URL announced on a stderr line: the text from the
/// first `ws://` on, trimmed; none when the line holds no `ws://`.
pub open spec fn spec_ws_url_in_line(line: Seq<char>) -> Option<Seq<char>> {
    match find(line, "ws://"@) {
        Some(i) => Some(trim(line.skip(i))),
        None => None,
    }
}

/// The DevTools WebSocket URL announced on a stderr line, if any.
pub fn ws_url_in_line(line: &str) -> (r: Option<String>)
    ensures
        match r {
            Some(u) => spec_ws_url_in_line(line@) == Some(u@),
            None => spec_ws_url_in_line(line@) is None,
        },
{
    let cs = chars_of(line);
    let n = cs.len();
    let pat = chars_of("ws://");
    match find_chars(cs.as_slice(), pat.as_slice()) {
        Some(i) => {
            proof {
                lemma_find(cs@, pat@);
                assert(occurs_at(cs@, pat@, i as int));
            }
            let rest = slice_chars(cs.as_slice(), i, n);
            assert(rest@ =~= line@.skip(i as int));
            let t = trim_chars(rest.as_slice());
            Some(string_of(t.as_slice()))
        },
        None => None,
    }
}

/// The log after one more line: the line is appended, and the oldest line
/// leaves when the log is full.
pub open spec fn log_push(log: Seq<Seq<char>>, line: Seq<char>) -> Seq<Seq<char>> {
    if log.len() >= MAX_STDERR_LINES {
        log.drop_first().push(line)
    } else {
        log.push(line)
    }
}

/// The log after taking `lines` in order, starting empty.
pub open spec fn log_of(lines: Seq<Seq<char>>) -> Seq<Seq<char>>
    decreases lines.len(),
{
    if lines.len() == 0 {
        seq![]
    } else {
        log_push(log_of(lines.drop_last()), lines.last())
    }
}

/// The last stderr lines of a starting browser, oldest first.
pub struct StderrLog {
    lines: Vec<String>,
}

impl View for StderrLog {
    type V = Seq<Seq<char>>;

    closed spec fn view(&self) -> Seq<Seq<char>> {
        strs(self.lines@)
    }
}

impl StderrLog {
    /// The log holds at most `MAX_STDERR_LINES` lines.
    pub closed spec fn wf(&self) -> bool {
        self.lines@.len() <= MAX_STDERR_LINES
    }

    /// An empty log.
    pub fn new() -> (l: Self)
        ensures
            l.wf(),
            l@ == Seq::<Seq<char>>::empty(),
    {
        let l = StderrLog { lines: Vec::new() };
        assert(l@ =~= Seq::<Seq<char>>::empty());
        l
    }

    /// Take one more line.
    pub fn push(&mut self, line: String)
        requires
            old(self).wf(),
        ensures
            final(self).wf(),
            final(self)@ == log_push(old(self)@, line@),
    {
        let ghost before = self.lines@;
        if self.lines.len() >= MAX_STDERR_LINES {
            self.lines.remove(0);
            assert(strs(self.lines@) =~= strs(before).drop_first());
        }
        let ghost mid = self.lines@;
        self.lines.push(line);
        assert(strs(self.lines@) =~= strs(mid).push(line@));
    }

    /// The kept lines, one per line of the result.
    pub fn joined(&self) -> (s: String)
        ensures
            s@ == join_with(self@, "\n"@),
    {
        joined(&self.lines, "\n")
    }
}

/// A log that has taken any number of lines holds exactly the latest
/// `MAX_STDERR_LINES` of them (all of them while there are fewer), oldest
/// first.
pub proof fn law_stderr_log_keeps_latest_lines(lines: Seq<Seq<char>>)
    ensures
        log_of(lines) == lines.skip(
            if lines.len() > MAX_STDERR_LINES { lines.len() - MAX_STDERR_LINES } else { 0 },
        ),
    decreases lines.len(),
{
    if lines.len() > 0 {
        let prev = lines.drop_last();
        law_stderr_log_keeps_latest_lines(prev);
        let k = if prev.len() > MAX_STDERR_LINES { prev.len() - MAX_STDERR_LINES } else { 0 };
        if prev.len() >= MAX_STDERR_LINES {
            assert(log_of(lines) =~= prev.skip(k).drop_first().push(lines.last()));
            assert(prev.skip(k).drop_first().push(lines.last()) =~= lines.skip(
                lines.len() - MAX_STDERR_LINES,
            ));
        } else {
            assert(log_of(lines) =~= prev.skip(0).push(lines.last()));
            assert(prev.skip(0).push(lines.last()) =~= lines.skip(0));
        }
    } else {
        assert(lines.skip(0) =~= lines);
    }
}

// ---------------------------------------------------------------------------
// Finding the executable
// ---------------------------------------------------------------------------

/// The operating system the executable is looked for on.
#[derive(Debug, Clone, Copy, PartialEq, Eq, Structural)]
pub enum TargetOs {
    MacOs,
    Linux,
    Windows,
    Other,
}

/// One place to look for the browser executable.
#[derive(Debug, Clone, PartialEq, Eq)]
pub enum Probe {
    /// An environment variable holding the executable's path.
    EnvVar(String),
    /// A program name looked up on the `PATH`.
    OnPath(String),
    /// A fixed file path.
    File(String),
}

/// A probe as plain text.
pub ghost enum SpecProbe {
    EnvVar(Seq<char>),
    OnPath(Seq<char>),
    File(Seq<char>),
}

impl View for Probe {
    type V = SpecProbe;

    open spec fn view(&self) -> SpecProbe {
        match self {
            Probe::EnvVar(s) => SpecProbe::EnvVar(s@),
            Probe::OnPath(s) => SpecProbe::OnPath(s@),
            Probe::File(s) => SpecProbe::File(s@),
        }
    }
}

/// The views of a list of probes.
pub open spec fn probes_view(v: Seq<Probe>) -> Seq<SpecProbe> {
    v.map_values(|p: Probe| p@)
}

/// File probes for each of the paths.
pub open spec fn files(paths: Seq<Seq<char>>) -> Seq<SpecProbe> {
    paths.map_values(|p: Seq<char>| SpecProbe::File(p))
}

/// `PATH` probes for each of the program names.
pub open spec fn on_path(names: Seq<Seq<char>>) -> Seq<SpecProbe> {
    names.map_values(|p: Seq<char>| SpecProbe::OnPath(p))
}

/// The places searched on `os`, in order, after the environment variables.
pub open spec fn os_probes(opts: DetectionOptions, os: TargetOs) -> Seq<SpecProbe> {
    match os {
        TargetOs::MacOs => files(
            seq![
                "/Applications/Google Chrome.app/Contents/MacOS/Google Chrome"@,
                "/Applications/Chromium.app/Contents/MacOS/Chromium"@,
                "/Applications/Google Chrome Beta.app/Contents/MacOS/Google Chrome Beta"@,
            ] + (if opts.unstable {
                seq!["/Applications/Google Chrome Canary.app/Contents/MacOS/Google Chrome Canary"@]
            } else {
                seq![]
            }) + (if opts.msedge {
                seq!["/Applications/Microsoft Edge.app/Contents/MacOS/Microsoft Edge"@]
            } else {
                seq![]
            }),
        ),
        TargetOs::Linux => on_path(
            seq!["google-chrome"@, "chromium"@, "chromium-browser"@, "chrome"@] + (if opts.msedge {
                seq!["microsoft-edge"@, "microsoft-edge-stable"@, "msedge"@]
            } else {
                seq![]
            }),
        ) + files(
            seq!["/usr/bin/google-chrome"@, "/usr/bin/chromium"@, "/snap/bin/chromium"@] + (
            if opts.msedge {
                seq!["/usr/bin/microsoft-edge"@, "/usr/bin/microsoft-edge-stable"@]
            } else {
                seq![]
            }),
        ),
        TargetOs::Windows => files(
            seq![
                "C:\\Program Files\\Google\\Chrome\\Application\\chrome.exe"@,
                "C:\\Program Files (x86)\\Google\\Chrome\\Application\\chrome.exe"@,
                "C:\\Program Files\\Chromium\\Application\\chrome.exe"@,
            ] + (if opts.msedge {
                seq![
                    "C:\\Program Files (x86)\\Microsoft\\Edge\\Application\\msedge.exe"@,
                    "C:\\Program Files\\Microsoft\\Edge\\Application\\msedge.exe"@,
                ]
            } else {
                seq![]
            }),
        ),
        TargetOs::Other => seq![],
    }
}

/// Where to look for the browser executable, in order: the `CHROME` and
/// `CHROMIUM` environment variables, then the places for `os`. The first
/// probe that finds something wins.
pub open spec fn spec_detection_plan(opts: DetectionOptions, os: TargetOs) -> Seq<SpecProbe> {
    seq![SpecProbe::EnvVar("CHROME"@), SpecProbe::EnvVar("CHROMIUM"@)] + os_probes(opts, os)
}

fn push_files(out: &mut Vec<Probe>, paths: &[&'static str])
    ensures
        probes_view(final(out)@) == probes_view(old(out)@) + files(str_views(paths@)),
{
    let mut i: usize = 0;
    while i < paths.len()
        invariant
            i <= paths@.len(),
            probes_view(out@) == probes_view(old(out)@) + files(str_views(paths@).take(i as int)),
        decreases paths@.len() - i,
    {
        let ghost prev = out@;
        let item = Probe::File(paths[i].to_owned());
        out.push(item);
        proof {
            assert(probes_view(out@) =~= probes_view(prev).push(item@));
            assert(files(str_views(paths@).take(i + 1)) =~= files(str_views(paths@).take(i as int)).push(
                SpecProbe::File(paths@[i as int]@),
            ));
            assert(probes_view(out@) =~= probes_view(old(out)@) + files(str_views(paths@).take(i + 1)));
        }
        i = i + 1;
    }
    proof {
        assert(str_views(paths@).take(paths@.len() as int) =~= str_views(paths@));
    }
}

fn push_on_path(out: &mut Vec<Probe>, names: &[&'static str])
    ensures
        probes_view(final(out)@) == probes_view(old(out)@) + on_path(str_views(names@)),
{
    let mut i: usize = 0;
    while i < names.len()
        invariant
            i <= names@.len(),
            probes_view(out@) == probes_view(old(out)@) + on_path(str_views(names@).take(i as int)),
        decreases names@.len() - i,
    {
        let ghost prev = out@;
        let item = Probe::OnPath(names[i].to_owned());
        out.push(item);
        proof {
            assert(probes_view(out@) =~= probes_view(prev).push(item@));
            assert(on_path(str_views(names@).take(i + 1)) =~= on_path(str_views(names@).take(i as int)).push(
                SpecProbe::OnPath(names@[i as int]@),
            ));
            assert(probes_view(out@) =~= probes_view(old(out)@) + on_path(str_views(names@).take(i + 1)));
        }
        i = i + 1;
    }
    proof {
        assert(str_views(names@).take(names@.len() as int) =~= str_views(names@));
    }
}

proof fn lemma_files_concat(a: Seq<Seq<char>>, b: Seq<Seq<char>>)
    ensures
        files(a + b) == files(a) + files(b),
        on_path(a + b) == on_path(a) + on_path(b),
{
    assert(files(a + b) =~= files(a) + files(b));
    assert(on_path(a + b) =~= on_path(a) + on_path(b));
}

/// Where to look for the browser executable on `os`, in order.
pub fn detection_plan(opts: &DetectionOptions, os: TargetOs) -> (v: Vec<Probe>)
    ensures
        probes_view(v@) == spec_detection_plan(*opts, os),
{
    let mut out: Vec<Probe> = Vec::new();
    out.push(Probe::EnvVar("CHROME".to_owned()));
    out.push(Probe::EnvVar("CHROMIUM".to_owned()));
    let ghost start = probes_view(out@);
    assert(start =~= seq![SpecProbe::EnvVar("CHROME"@), SpecProbe::EnvVar("CHROMIUM"@)]);
    match os {
        TargetOs::MacOs => {
            let base = [
                "/Applications/Google Chrome.app/Contents/MacOS/Google Chrome",
                "/Applications/Chromium.app/Contents/MacOS/Chromium",
                "/Applications/Google Chrome Beta.app/Contents/MacOS/Google Chrome Beta",
            ];
            push_files(&mut out, &base);
            let canary = ["/Applications/Google Chrome Canary.app/Contents/MacOS/Google Chrome Canary"];
            let edge = ["/Applications/Microsoft Edge.app/Contents/MacOS/Microsoft Edge"];
            let ghost mid = probes_view(out@);
            if opts.unstable {
                push_files(&mut out, &canary);
            }
            let ghost mid2 = probes_view(out@);
            if opts.msedge {
                push_files(&mut out, &edge);
            }
            proof {
                let b = str_views(base@);
                let c = if opts.unstable { str_views(canary@) } else { seq![] };
                let e = if opts.msedge { str_views(edge@) } else { seq![] };
                assert(files(seq![]) =~= seq![]);
                lemma_files_concat(b, c);
                lemma_files_concat(b + c, e);
                assert(b =~= seq![
                    "/Applications/Google Chrome.app/Contents/MacOS/Google Chrome"@,
                    "/Applications/Chromium.app/Contents/MacOS/Chromium"@,
                    "/Applications/Google Chrome Beta.app/Contents/MacOS/Google Chrome Beta"@,
                ]);
                assert(str_views(canary@) =~= seq!["/Applications/Google Chrome Canary.app/Contents/MacOS/Google Chrome Canary"@]);
                assert(str_views(edge@) =~= seq!["/Applications/Microsoft Edge.app/Contents/MacOS/Microsoft Edge"@]);
                assert(probes_view(out@) =~= spec_detection_plan(*opts, os));
            }
        },
        TargetOs::Linux => {
            let names = ["google-chrome", "chromium", "chromium-browser", "chrome"];
            let edge_names = ["microsoft-edge", "microsoft-edge-stable", "msedge"];
            let paths = ["/usr/bin/google-chrome", "/usr/bin/chromium", "/snap/bin/chromium"];
            let edge_paths = ["/usr/bin/microsoft-edge", "/usr/bin/microsoft-edge-stable"];
            push_on_path(&mut out, &names);
            if opts.msedge {
                push_on_path(&mut out, &edge_names);
            }
            push_files(&mut out, &paths);
            if opts.msedge {
                push_files(&mut out, &edge_paths);
            }
            proof {
                let n = str_views(names@);
                let en = if opts.msedge { str_views(edge_names@) } else { seq![] };
                let p = str_views(paths@);
                let ep = if opts.msedge { str_views(edge_paths@) } else { seq![] };
                assert(files(seq![]) =~= seq![]);
                assert(on_path(seq![]) =~= seq![]);
                lemma_files_concat(n, en);
                lemma_files_concat(p, ep);
                assert(n =~= seq!["google-chrome"@, "chromium"@, "chromium-browser"@, "chrome"@]);
                assert(str_views(edge_names@) =~= seq!["microsoft-edge"@, "microsoft-edge-stable"@, "msedge"@]);
                assert(p =~= seq!["/usr/bin/google-chrome"@, "/usr/bin/chromium"@, "/snap/bin/chromium"@]);
                assert(str_views(edge_paths@) =~= seq!["/usr/bin/microsoft-edge"@, "/usr/bin/microsoft-edge-stable"@]);
                assert(probes_view(out@) =~= spec_detection_plan(*opts, os));
            }
        },
        TargetOs::Windows => {
            let base = [
                "C:\\Program Files\\Google\\Chrome\\Application\\chrome.exe",
                "C:\\Program Files (x86)\\Google\\Chrome\\Application\\chrome.exe",
                "C:\\Program Files\\Chromium\\Application\\chrome.exe",
            ];
            let edge = [
                "C:\\Program Files (x86)\\Microsoft\\Edge\\Application\\msedge.exe",
                "C:\\Program Files\\Microsoft\\Edge\\Application\\msedge.exe",
            ];
            push_files(&mut out, &base);
            if opts.msedge {
                push_files(&mut out, &edge);
            }
            proof {
                let b = str_views(base@);
                let e = if opts.msedge { str_views(edge@) } else { seq![] };
                assert(files(seq![]) =~= seq![]);
                lemma_files_concat(b, e);
                assert(b =~= seq![
                    "C:\\Program Files\\Google\\Chrome\\Application\\chrome.exe"@,
                    "C:\\Program Files (x86)\\Google\\Chrome\\Application\\chrome.exe"@,
                    "C:\\Program Files\\Chromium\\Application\\chrome.exe"@,
                ]);
                assert(str_views(edge@) =~= seq![
                    "C:\\Program Files (x86)\\Microsoft\\Edge\\Application\\msedge.exe"@,
                    "C:\\Program Files\\Microsoft\\Edge\\Application\\msedge.exe"@,
                ]);
                assert(probes_view(out@) =~= spec_detection_plan(*opts, os));
            }
        },
        TargetOs::Other => {
            assert(probes_view(out@) =~= spec_detection_plan(*opts, os));
        },
    }
    out
}

} // verus!
