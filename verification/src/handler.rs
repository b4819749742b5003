//! The decisions of the task that owns the connection to the browser.
//!
//! The task reads three sources: messages from the browser (answers and
//! events), requests from callers, and a periodic timer. Each arrival is
//! handed to [`HandlerCore::step`], which updates the pending calls and the
//! event subscribers and says whether the task goes on. Reading the
//! connection, sending commands, the timer and the target tree stay with
//! the task: it sends a command before it registers its caller here, and
//! it updates the target tree before it hands an event here, so that
//! subscribers reacting to an event see the tree it describes.

use std::sync::Arc;

use futures::channel::oneshot;
use vstd::prelude::*;

use crate::dispatch::{closed_answers, sender_of, timed_out, unexpired, Answer, CallResult, CommandDispatcher};
use crate::error::CdpError;
use crate::event_bus::{published, session_key, EventBus, EventFrame, Subscriber};
use crate::types::{self, CallId};

verus! {

/// Whether the JSON value `v` is `null` (`serde_json::Value::is_null`).
pub uninterp spec fn json_is_null(v: serde_json::Value) -> bool;

/// `serde_json::Value::Null`.
///
/// Trusted: the value is `null`, as `Value::is_null` tells it.
#[verifier::external_body]
fn json_null() -> (v: serde_json::Value)
    ensures
        json_is_null(v),
{
    serde_json::Value::Null
}

/// Whether `r` is what the caller of a call answered with `result` and
/// `error` gets: the browser's error as a protocol error, else the result
/// (`null` when the answer carries none).
pub open spec fn answers_with(result: Option<serde_json::Value>, error: Option<types::CdpError>, r: CallResult) -> bool {
    match error {
        Some(e) => r matches Err(CdpError::Cdp { code, message }) && code == e.code && message@ == e.message@,
        None => match result {
            Some(v) => r == Ok::<serde_json::Value, CdpError>(v),
            None => r matches Ok(v) && json_is_null(v),
        },
    }
}

/// What the caller waiting for an answer gets: the browser's error as a
/// protocol error, else the result (`null` when the answer carries none).
pub fn answer_result(result: Option<serde_json::Value>, error: Option<types::CdpError>) -> (r: CallResult)
    ensures
        answers_with(result, error, r),
{
    match error {
        Some(e) => Err(CdpError::Cdp { code: e.code, message: e.message }),
        None => match result {
            Some(v) => Ok(v),
            None => Ok(json_null()),
        },
    }
}

/// Something that arrived at the task.
pub enum HandlerInput {
    /// The browser answered call `id`.
    Answer { id: CallId, result: Option<serde_json::Value>, error: Option<types::CdpError> },
    /// The browser sent an event (the target tree already reflects it).
    Event(Arc<EventFrame>),
    /// A caller's command was sent under `id` at `now_ms`; its answer goes
    /// to `tx`.
    Command { id: CallId, tx: oneshot::Sender<CallResult>, now_ms: u64 },
    /// A caller subscribes to events, globally or for a session.
    Subscribe { session_id: Option<Arc<str>>, tx: Subscriber },
    /// The timer fired at `now_ms`.
    Tick { now_ms: u64 },
    /// The connection failed or closed.
    ConnectionEnded,
    /// A caller asked the task to stop (or every caller is gone).
    Shutdown,
}

/// Whether the task goes on.
#[derive(Debug, Clone, Copy, PartialEq, Eq, Structural)]
pub enum HandlerAction {
    /// Keep reading.
    Continue,
    /// Stop the task.
    Stop,
}

/// The pending calls and the event subscribers of the connection.
pub struct HandlerCore {
    /// The calls waiting for their answers.
    pub dispatch: CommandDispatcher,
    /// The event subscribers.
    pub bus: EventBus,
    /// Whether the connection has ended (callers see it as cancelled).
    pub closed: bool,
}

impl HandlerCore {
    /// The dispatcher's and the bus's invariants.
    pub open spec fn inv(&self) -> bool {
        self.dispatch.inv() && self.bus.inv()
    }

    /// Nothing pending, no subscriber, connection open; calls may wait
    /// `request_timeout_ms` milliseconds.
    pub fn new(request_timeout_ms: u64) -> (h: Self)
        ensures
            h.inv(),
            h.dispatch.calls() == Map::<usize, u64>::empty(),
            h.dispatch.request_timeout_ms == request_timeout_ms,
            h.bus.global() == Seq::<int>::empty(),
            h.bus.sessions() == Map::<Seq<char>, Seq<int>>::empty(),
            h.bus.dropped() == 0,
            !h.closed,
    {
        HandlerCore { dispatch: CommandDispatcher::new(request_timeout_ms), bus: EventBus::new(), closed: false }
    }

    /// What one arrival does, and the answers the task then hands to
    /// waiting callers (with [`crate::dispatch::send_answers`]): an answer
    /// goes to its waiting caller; an event is published; a sent command
    /// waits for its answer; a subscription is registered; the timer answers
    /// calls that ran out of time with a timeout; the end of the connection
    /// answers every pending call as closed, drops every subscriber and
    /// stops the task; a shutdown stops the task and changes nothing.
    pub fn step(&mut self, input: HandlerInput) -> (out: (HandlerAction, Vec<Answer>))
        requires
            old(self).inv(),
        ensures
            final(self).inv(),
            final(self).dispatch.request_timeout_ms == old(self).dispatch.request_timeout_ms,
            out.0 == (if input is ConnectionEnded || input is Shutdown {
                HandlerAction::Stop
            } else {
                HandlerAction::Continue
            }),
            final(self).closed == (old(self).closed || input is ConnectionEnded),
            match input {
                HandlerInput::Answer { id, result, error } => if old(self).dispatch.calls().contains_key(id.0) {
                    out.1@.len() == 1 && out.1@[0].0 == sender_of(old(self).dispatch.pending@, id.0)
                        && answers_with(result, error, out.1@[0].1)
                } else {
                    out.1@.len() == 0
                },
                HandlerInput::Tick { now_ms } => out.1@ == timed_out(
                    old(self).dispatch.pending@,
                    now_ms,
                    old(self).dispatch.request_timeout_ms,
                ),
                HandlerInput::ConnectionEnded => out.1@ == closed_answers(old(self).dispatch.pending@),
                _ => out.1@.len() == 0,
            },
            match input {
                HandlerInput::Answer { id, .. } => final(self).dispatch.calls() == old(self).dispatch.calls().remove(id.0)
                    && final(self).bus == old(self).bus,
                HandlerInput::Event(frame) => final(self).dispatch.calls() == old(self).dispatch.calls()
                    && final(self).bus.next_ticket() == old(self).bus.next_ticket()
                    && exists|og: Seq<crate::event_bus::Delivery>, os: Seq<crate::event_bus::Delivery>|
                    #[trigger] published(old(self).bus, final(self).bus, session_key(frame.session_id), og, os),
                HandlerInput::Command { id, now_ms, .. } => final(self).dispatch.calls() == old(
                    self,
                ).dispatch.calls().insert(id.0, now_ms) && final(self).bus == old(self).bus,
                HandlerInput::Subscribe { session_id, .. } => final(self).dispatch.calls() == old(
                    self,
                ).dispatch.calls() && final(self).bus.dropped() == old(self).bus.dropped()
                    && final(self).bus.next_ticket() == old(self).bus.next_ticket() + 1 && match session_id {
                    None => final(self).bus.global() == old(self).bus.global().push(old(self).bus.next_ticket())
                        && final(self).bus.sessions() == old(self).bus.sessions(),
                    Some(s) => final(self).bus.global() == old(self).bus.global() && final(self).bus.sessions()
                        == old(self).bus.sessions().insert(
                        s@,
                        if old(self).bus.sessions().contains_key(s@) {
                            old(self).bus.sessions()[s@].push(old(self).bus.next_ticket())
                        } else {
                            seq![old(self).bus.next_ticket()]
                        },
                    ),
                },
                HandlerInput::Tick { now_ms } => final(self).dispatch.calls() == unexpired(
                    old(self).dispatch.calls(),
                    now_ms,
                    old(self).dispatch.request_timeout_ms,
                ) && final(self).bus == old(self).bus,
                HandlerInput::ConnectionEnded => final(self).dispatch.calls() == Map::<usize, u64>::empty()
                    && final(self).bus.global() == Seq::<int>::empty() && final(self).bus.sessions() == Map::<
                    Seq<char>,
                    Seq<int>,
                >::empty() && final(self).bus.dropped() == old(self).bus.dropped(),
                HandlerInput::Shutdown => final(self).dispatch.calls() == old(self).dispatch.calls()
                    && final(self).bus == old(self).bus,
            },
    {
        match input {
            HandlerInput::Answer { id, result, error } => {
                let r = answer_result(result, error);
                let answers = match self.dispatch.resolve(id, r) {
                    Some(a) => vec![a],
                    None => Vec::new(),
                };
                (HandlerAction::Continue, answers)
            },
            HandlerInput::Event(frame) => {
                self.bus.publish(frame);
                (HandlerAction::Continue, Vec::new())
            },
            HandlerInput::Command { id, tx, now_ms } => {
                self.dispatch.register(id, tx, now_ms);
                (HandlerAction::Continue, Vec::new())
            },
            HandlerInput::Subscribe { session_id, tx } => {
                self.bus.subscribe_with_sender(session_id, tx);
                (HandlerAction::Continue, Vec::new())
            },
            HandlerInput::Tick { now_ms } => {
                let answers = self.dispatch.sweep_timeouts(now_ms);
                (HandlerAction::Continue, answers)
            },
            HandlerInput::ConnectionEnded => {
                self.closed = true;
                let answers = self.dispatch.fail_all();
                self.bus.close_all();
                (HandlerAction::Stop, answers)
            },
            HandlerInput::Shutdown => (HandlerAction::Stop, Vec::new()),
        }
    }
}

} // verus!
