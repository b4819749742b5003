//! Which targets belong to a browser context, and what closing a context
//! sends to the browser.
//!
//! A context is named by its browser-context id; the default context has
//! none. The targets the connection knows of are given as plain entries in
//! the order the target tree lists them.

use vstd::prelude::*;

use crate::error::CdpError;
use crate::pdl::{opt_str, strs};
use crate::text::{chars_of, eq_str};

verus! {

/// What the connection knows of one target.
#[derive(Debug, Clone)]
pub struct TargetEntry {
    /// The target's id.
    pub target_id: String,
    /// Its type (`page`, `service_worker`, …).
    pub target_type: String,
    /// The browser context it belongs to; `None` for the default context.
    pub browser_context_id: Option<String>,
    /// Its current session id, when a session is attached.
    pub session_id: Option<String>,
}

pub ghost struct SpecTargetEntry {
    pub target_id: Seq<char>,
    pub target_type: Seq<char>,
    pub browser_context_id: Option<Seq<char>>,
    pub session_id: Option<Seq<char>>,
}

impl View for TargetEntry {
    type V = SpecTargetEntry;

    open spec fn view(&self) -> SpecTargetEntry {
        SpecTargetEntry {
            target_id: self.target_id@,
            target_type: self.target_type@,
            browser_context_id: opt_str(self.browser_context_id),
            session_id: opt_str(self.session_id),
        }
    }
}

pub open spec fn entries_view(v: Seq<TargetEntry>) -> Seq<SpecTargetEntry> {
    v.map_values(|e: TargetEntry| e@)
}

fn same_opt(a: &Option<String>, b: &Option<String>) -> (r: bool)
    ensures
        r == (opt_str(*a) == opt_str(*b)),
{
    match (a, b) {
        (None, None) => true,
        (Some(x), Some(y)) => eq_str(chars_of(x.as_str()).as_slice(), y.as_str()),
        _ => false,
    }
}

/// Whether `ctx` is the default context.
pub fn is_default(ctx: &Option<String>) -> (b: bool)
    ensures
        b == (ctx is None),
{
    ctx.is_none()
}

/// Whether a target whose context is `info_ctx` belongs to the context
/// `ctx`: both the default context, or both the same context.
pub fn matches_context(ctx: &Option<String>, info_ctx: &Option<String>) -> (b: bool)
    ensures
        b == (opt_str(*ctx) == opt_str(*info_ctx)),
{
    same_opt(ctx, info_ctx)
}

/// The ids of the targets of type `kind` that belong to context `ctx`, in
/// the entries' order.
pub open spec fn spec_targets_in_context(ctx: Option<Seq<char>>, es: Seq<SpecTargetEntry>, kind: Seq<char>) -> Seq<
    Seq<char>,
>
    decreases es.len(),
{
    if es.len() == 0 {
        seq![]
    } else {
        spec_targets_in_context(ctx, es.drop_last(), kind) + if es.last().target_type == kind
            && es.last().browser_context_id == ctx {
            seq![es.last().target_id]
        } else {
            seq![]
        }
    }
}

/// The ids of the targets of type `kind` that belong to context `ctx`, in
/// the entries' order.
pub fn targets_in_context(ctx: &Option<String>, entries: &Vec<TargetEntry>, kind: &str) -> (r: Vec<String>)
    ensures
        strs(r@) == spec_targets_in_context(opt_str(*ctx), entries_view(entries@), kind@),
{
    let ghost ev = entries_view(entries@);
    let mut r: Vec<String> = Vec::new();
    let mut i: usize = 0;
    while i < entries.len()
        invariant
            i <= entries@.len(),
            ev == entries_view(entries@),
            strs(r@) == spec_targets_in_context(opt_str(*ctx), ev.take(i as int), kind@),
        decreases entries@.len() - i,
    {
        let e = &entries[i];
        proof {
            assert(ev.take(i + 1).drop_last() =~= ev.take(i as int));
            assert(ev.take(i + 1).last() == e@);
        }
        let ghost before = strs(r@);
        if eq_str(chars_of(e.target_type.as_str()).as_slice(), kind) && matches_context(ctx, &e.browser_context_id) {
            r.push(e.target_id.clone());
            proof {
                assert(strs(r@) =~= before + seq![e.target_id@]);
            }
        } else {
            proof {
                assert(before + Seq::<Seq<char>>::empty() =~= before);
            }
        }
        i = i + 1;
    }
    proof {
        assert(ev.take(entries@.len() as int) =~= ev);
    }
    r
}

/// The ids of the page targets of context `ctx`, in the entries' order.
pub fn page_target_ids(ctx: &Option<String>, entries: &Vec<TargetEntry>) -> (r: Vec<String>)
    ensures
        strs(r@) == spec_targets_in_context(opt_str(*ctx), entries_view(entries@), "page"@),
{
    targets_in_context(ctx, entries, "page")
}

/// Whether a target of context `ctx` has the session `session_id`.
pub open spec fn spec_session_in_context(ctx: Option<Seq<char>>, es: Seq<SpecTargetEntry>, session_id: Seq<char>) -> bool {
    exists|i: int|
        0 <= i < es.len() && #[trigger] es[i].session_id == Some(session_id) && es[i].browser_context_id == ctx
}

/// Whether the session `session_id` is that of a target of context `ctx`.
pub fn session_belongs_to_context(ctx: &Option<String>, entries: &Vec<TargetEntry>, session_id: &str) -> (b: bool)
    ensures
        b == spec_session_in_context(opt_str(*ctx), entries_view(entries@), session_id@),
{
    let ghost ev = entries_view(entries@);
    let mut i: usize = 0;
    while i < entries.len()
        invariant
            i <= entries@.len(),
            ev == entries_view(entries@),
            forall|j: int|
                0 <= j < i ==> !(#[trigger] ev[j].session_id == Some(session_id@) && ev[j].browser_context_id == opt_str(
                    *ctx,
                )),
        decreases entries@.len() - i,
    {
        let e = &entries[i];
        assert(ev[i as int] == e@);
        let has = match &e.session_id {
            Some(s) => eq_str(chars_of(s.as_str()).as_slice(), session_id),
            None => false,
        };
        if has && matches_context(ctx, &e.browser_context_id) {
            assert(ev[i as int].session_id == Some(session_id@) && ev[i as int].browser_context_id == opt_str(*ctx));
            return true;
        }
        i = i + 1;
    }
    false
}

/// What closing a browser context sends: the page targets to close, in
/// order, then the context to dispose.
#[derive(Debug, Clone)]
pub struct ContextClose {
    /// The page targets to close, each in turn (a failure to close one is
    /// ignored).
    pub close_targets: Vec<String>,
    /// The context to dispose once the pages are closed.
    pub dispose: String,
}

/// What closing context `ctx` sends: its page targets are closed, then the
/// context is disposed. The default context cannot be closed.
pub fn close_plan(ctx: &Option<String>, entries: &Vec<TargetEntry>) -> (r: Result<ContextClose, CdpError>)
    ensures
        match r {
            Ok(plan) => ctx is Some && plan.dispose@ == ctx->0@ && strs(plan.close_targets@)
                == spec_targets_in_context(opt_str(*ctx), entries_view(entries@), "page"@),
            Err(e) => ctx is None && e is CannotCloseDefaultContext,
        },
{
    match ctx {
        Some(id) => Ok(ContextClose { close_targets: page_target_ids(ctx, entries), dispose: id.clone() }),
        None => Err(CdpError::CannotCloseDefaultContext),
    }
}

} // verus!
