//! Control of a page's clock through an injected fake-timers script, and
//! the waiter for new pages of a browser context.

use vstd::prelude::*;

use crate::num::{decimal, u64_to_decimal};
use crate::text::push_str;

verus! {

/// The fake-timers script: it replaces `Date`, `Date.now`,
/// `performance.now`, `setTimeout`, `setInterval`, `clearTimeout` and
/// `clearInterval` with controllable versions kept under
/// `window.__chromistClock`, and does nothing when already installed.
pub const CLOCK_SHIM: &'static str = "(function() {
  if (window.__chromistClock) return;
  var _origDate = Date;
  var _origSetTimeout = setTimeout;
  var _origSetInterval = setInterval;
  var _origClearTimeout = clearTimeout;
  var _origClearInterval = clearInterval;
  var _origPerfNow = performance.now.bind(performance);
  var _now = _origDate.now();
  var _pageOrigin = _origPerfNow();
  var _timers = [];
  var _nextId = 1;
  function _install(fn, ms, repeat) {
    var id = _nextId++;
    var deadline = _now + (ms || 0);
    _timers.push({id: id, fn: fn, deadline: deadline, ms: ms || 0, repeat: repeat});
    _timers.sort(function(a, b) { return a.deadline - b.deadline; });
    return id;
  }
  function FakeDate() {
    if (!(this instanceof FakeDate)) { return new FakeDate().toString(); }
    var d = arguments.length === 0 ? new _origDate(_now) : new (Function.prototype.bind.apply(_origDate, [null].concat(Array.prototype.slice.call(arguments))))();
    return d;
  }
  FakeDate.prototype = _origDate.prototype;
  FakeDate.now = function() { return _now; };
  FakeDate.parse = _origDate.parse.bind(_origDate);
  FakeDate.UTC = _origDate.UTC.bind(_origDate);
  window.Date = FakeDate;
  window.setTimeout = function(fn, ms) { return _install(fn, ms, false); };
  window.setInterval = function(fn, ms) { return _install(fn, ms, true); };
  window.clearTimeout = window.clearInterval = function(id) {
    _timers = _timers.filter(function(t) { return t.id !== id; });
  };
  Object.defineProperty(performance, 'now', {
    configurable: true,
    value: function() { return _now - _pageOrigin; }
  });
  window.__chromistClock = {
    setTime: function(ms) { _now = ms; },
    tick: function(ms) {
      var target = _now + ms;
      while (_timers.length && _timers[0].deadline <= target) {
        var t = _timers.shift();
        _now = t.deadline;
        try { t.fn(); } catch(e) {}
        if (t.repeat) {
          t.deadline = _now + t.ms;
          _timers.push(t);
          _timers.sort(function(a, b) { return a.deadline - b.deadline; });
        }
      }
      _now = target;
    },
    restore: function() {
      window.Date = _origDate;
      window.setTimeout = _origSetTimeout;
      window.setInterval = _origSetInterval;
      window.clearTimeout = _origClearTimeout;
      window.clearInterval = _origClearInterval;
      Object.defineProperty(performance, 'now', { configurable: true, value: _origPerfNow });
      delete window.__chromistClock;
    }
  };
})()";

/// The script that sets the page's clock to `ms` milliseconds since the
/// epoch.
pub open spec fn set_time_script_text(ms: nat) -> Seq<char> {
    "window.__chromistClock && window.__chromistClock.setTime("@ + decimal(ms) + ")"@
}

/// The script that advances the page's clock by `ms` milliseconds.
pub open spec fn tick_script_text(ms: nat) -> Seq<char> {
    "window.__chromistClock && window.__chromistClock.tick("@ + decimal(ms) + ")"@
}

/// A handle for controlling the fake clock of a page `P`.
#[derive(Debug, Clone)]
pub struct Clock<P> {
    /// The page whose clock this is.
    pub page: P,
}

impl<P> Clock<P> {
    /// A clock handle for `page`.
    pub fn new(page: P) -> (c: Self)
        ensures
            c.page == page,
    {
        Clock { page }
    }

    /// The script that sets the clock to `millis_since_epoch` without
    /// running pending timers.
    pub fn set_time_script(&self, millis_since_epoch: u64) -> (s: String)
        ensures
            s@ == set_time_script_text(millis_since_epoch as nat),
    {
        let mut s = "window.__chromistClock && window.__chromistClock.setTime(".to_owned();
        let n = u64_to_decimal(millis_since_epoch);
        push_str(&mut s, n.as_str());
        push_str(&mut s, ")");
        s
    }

    /// The script that advances the clock by `ms`, running the timers that
    /// fall due.
    pub fn tick_script(&self, ms: u64) -> (s: String)
        ensures
            s@ == tick_script_text(ms as nat),
    {
        let mut s = "window.__chromistClock && window.__chromistClock.tick(".to_owned();
        let n = u64_to_decimal(ms);
        push_str(&mut s, n.as_str());
        push_str(&mut s, ")");
        s
    }

    /// The script that puts the page's own clock and timers back.
    pub fn restore_script(&self) -> (s: &'static str)
        ensures
            s@ == "window.__chromistClock && window.__chromistClock.restore()"@,
    {
        "window.__chromistClock && window.__chromistClock.restore()"
    }
}

// ---------------------------------------------------------------------------
// Waiting for new pages
// ---------------------------------------------------------------------------

/// Whether a target of browser context `target_ctx` belongs to the context
/// `ctx`: both are the default context (no id), or both have the same id.
pub open spec fn same_context_spec(ctx: Option<Seq<char>>, target_ctx: Option<Seq<char>>) -> bool {
    match (ctx, target_ctx) {
        (None, None) => true,
        (Some(a), Some(b)) => a == b,
        _ => false,
    }
}

/// A target belongs to a context exactly when it carries that context's id,
/// or no id when the context is the default one: a waiter on the default
/// context never takes a page of another context, and the relation is
/// symmetric.
pub proof fn law_targets_belong_to_exactly_their_context(ctx: Option<Seq<char>>, target_ctx: Option<Seq<char>>)
    ensures
        same_context_spec(ctx, target_ctx) == (ctx == target_ctx),
        same_context_spec(ctx, target_ctx) == same_context_spec(target_ctx, ctx),
        ctx is None && target_ctx is Some ==> !same_context_spec(ctx, target_ctx),
{
}

/// The text of an optional string.
pub open spec fn opt_text(o: Option<String>) -> Option<Seq<char>> {
    match o {
        Some(s) => Some(s@),
        None => None,
    }
}

/// Whether a target of browser context `target_ctx` belongs to `ctx`.
pub fn same_context(ctx: &Option<String>, target_ctx: &Option<String>) -> (b: bool)
    ensures
        b == same_context_spec(opt_text(*ctx), opt_text(*target_ctx)),
{
    match (ctx, target_ctx) {
        (None, None) => true,
        (Some(a), Some(b)) => *a == *b,
        _ => false,
    }
}

/// A pending wait for a new page of a browser context; `S` is the event
/// subscription and `H` the connection handle it answers through.
#[derive(Debug)]
pub struct PageWaiter<S, H> {
    /// The subscription to new targets.
    pub stream: S,
    /// The connection handle.
    pub handle: H,
    /// The browser context waited on; `None` for the default one.
    pub context_id: Option<String>,
    /// How long to wait in all.
    pub timeout: std::time::Duration,
}

impl<S, H> PageWaiter<S, H> {
    /// A waiter with the given parts.
    pub fn new(stream: S, handle: H, context_id: Option<String>, timeout: std::time::Duration) -> (w: Self)
        ensures
            w.stream == stream,
            w.handle == handle,
            w.context_id == context_id,
            w.timeout == timeout,
    {
        PageWaiter { stream, handle, context_id, timeout }
    }

    /// The same waiter with another time limit.
    pub fn with_timeout(self, timeout: std::time::Duration) -> (w: Self)
        ensures
            w.stream == self.stream,
            w.handle == self.handle,
            w.context_id == self.context_id,
            w.timeout == timeout,
    {
        PageWaiter { stream: self.stream, handle: self.handle, context_id: self.context_id, timeout }
    }

    /// Whether a newly created target ends the wait: it is a page of the
    /// waited-on context and the caller's predicate accepted its URL.
    pub fn accepts(&self, target_type: &str, target_ctx: &Option<String>, url_accepted: bool) -> (b: bool)
        ensures
            b == (target_type@ == "page"@ && same_context_spec(opt_text(self.context_id), opt_text(*target_ctx))
                && url_accepted),
    {
        let t = crate::text::chars_of(target_type);
        crate::text::eq_str(t.as_slice(), "page") && same_context(&self.context_id, target_ctx) && url_accepted
    }
}

} // verus!
