//! Fan-out of inbound events to subscribers.
//!
//! Subscribers are bounded channels in two pools: the global one, which
//! receives every event, and one per session, which receives the events
//! tagged with that session. When a subscriber's channel is full the event
//! is dropped for it, and counted, but the subscriber stays; when its
//! receiver is gone the subscriber is pruned. A session left without
//! subscribers is forgotten.

use std::borrow::Cow;
use std::sync::Arc;

use futures::channel::mpsc;
use vstd::prelude::*;

use crate::text::{chars_of, eq_str};
use crate::types::MethodType;
use crate::keyed::{distinct_keys, keyed, lemma_keyed_index, lemma_keyed_push, lemma_keyed_remove, position_of};

verus! {

#[verifier::external_type_specification]
#[verifier::external_body]
#[verifier::reject_recursive_types(T)]
pub struct ExMpscSender<T>(mpsc::Sender<T>);

#[verifier::external_type_specification]
#[verifier::external_body]
#[verifier::reject_recursive_types(T)]
pub struct ExMpscReceiver<T>(mpsc::Receiver<T>);

/// How many events a subscriber's channel holds before new ones are
/// dropped for it.
pub const EVENT_CHANNEL_CAP: usize = 512;

/// One event delivered to subscribers.
#[derive(Debug)]
pub struct EventFrame {
    /// The method name as it appears on the wire (e.g. `Page.loadEventFired`).
    pub method: String,
    /// The event's parameters.
    pub params: serde_json::Value,
    /// The session the event belongs to; `None` for browser-level events.
    pub session_id: Option<Arc<str>>,
}

impl EventFrame {
    /// Whether this frame's method is `method_id`.
    pub fn has_method(&self, method_id: &str) -> (b: bool)
        ensures
            b == (self.method@ == method_id@),
    {
        eq_str(chars_of(self.method.as_str()).as_slice(), method_id)
    }

    /// Whether this frame's method is the one the event type `T` names
    /// (`T::method_id`, compared by `has_method`).
    pub fn is<T: MethodType>(&self) -> (b: bool)
        ensures
            exists|id: Cow<'static, str>| call_ensures(T::method_id, (), id) && b == (self.method@ == id@),
    {
        let id = T::method_id();
        assert(call_ensures(T::method_id, (), id));
        match &id {
            Cow::Borrowed(s) => self.has_method(s),
            Cow::Owned(s) => self.has_method(s.as_str()),
        }
    }
}

/// A subscriber's channel.
pub type Subscriber = mpsc::Sender<Arc<EventFrame>>;

/// A subscriber with the number it was registered under, which names it in
/// the bus's contracts (its channel's state changes as events are offered).
pub type Registered = (Ghost<int>, Subscriber);

/// The numbers of a list of registered subscribers, in order.
pub open spec fn tickets(v: Seq<Registered>) -> Seq<int> {
    v.map_values(|e: Registered| e.0@)
}

/// What became of an event offered to one subscriber.
#[derive(Debug, Clone, Copy, PartialEq, Eq, Structural)]
pub enum Delivery {
    /// The subscriber's channel took it.
    Sent,
    /// The subscriber's channel was full; the event is lost for it.
    Full,
    /// The subscriber's receiver is gone.
    Disconnected,
}

/// `futures::channel::mpsc::channel` with room for `EVENT_CHANNEL_CAP`
/// events.
///
/// Trusted: nothing is claimed of the pair (the buffer size is below the
/// crate's limit, so the call does not panic).
#[verifier::external_body]
fn event_channel() -> (Subscriber, mpsc::Receiver<Arc<EventFrame>>) {
    mpsc::channel(EVENT_CHANNEL_CAP)
}

/// `futures::channel::mpsc::Sender::try_send` of a shared frame, with the
/// error told apart by `TrySendError::is_full`.
///
/// The sender is handed back with the outcome.
///
/// Trusted: nothing is claimed of the outcome, which depends on the
/// receiver.
#[verifier::external_body]
pub(crate) fn offer(tx: Subscriber, frame: &Arc<EventFrame>) -> (Subscriber, Delivery) {
    let mut tx = tx;
    let d = match tx.try_send(Arc::clone(frame)) {
        Ok(()) => Delivery::Sent,
        Err(e) => if e.is_full() {
            Delivery::Full
        } else {
            Delivery::Disconnected
        },
    };
    (tx, d)
}

/// Each subscriber of `plan` was offered `frame` in turn, coming back as
/// the matching entry of `after` (same number) with outcome `out[j]`.
pub closed spec fn offered(plan: Seq<Registered>, frame: &Arc<EventFrame>, after: Seq<Registered>, out: Seq<Delivery>) -> bool {
    &&& after.len() == plan.len()
    &&& out.len() == plan.len()
    &&& forall|j: int|
        0 <= j < plan.len() ==> #[trigger] after[j].0 == plan[j].0 && call_ensures(
            offer,
            (plan[j].1, frame),
            (after[j].1, out[j]),
        )
}

/// The subscribers of `subs` that remain after an event was offered to
/// each, the `i`-th with outcome `out[i]`: all but those whose receiver was
/// gone, in order.
pub open spec fn kept<T>(subs: Seq<T>, out: Seq<Delivery>) -> Seq<T>
    decreases subs.len(),
{
    if subs.len() == 0 || out.len() == 0 {
        seq![]
    } else {
        let rest = kept(subs.drop_last(), out.drop_last());
        if out.last() == Delivery::Disconnected {
            rest
        } else {
            rest.push(subs.last())
        }
    }
}

/// How many of the outcomes are `Full`.
pub open spec fn count_full(out: Seq<Delivery>) -> nat
    decreases out.len(),
{
    if out.len() == 0 {
        0
    } else {
        count_full(out.drop_last()) + if out.last() == Delivery::Full {
            1nat
        } else {
            0nat
        }
    }
}

/// `n` more dropped events on a counter that wraps around.
pub open spec fn add_dropped(count: u64, n: nat) -> u64 {
    ((count + n) % 0x1_0000_0000_0000_0000) as u64
}

/// The subscribers an event of session `sid` (none for a browser-level
/// event) is offered to, by number and in order: the global subscribers,
/// then those of that session.
pub open spec fn audience(global: Seq<int>, sessions: Map<Seq<char>, Seq<int>>, sid: Option<Seq<char>>) -> Seq<int> {
    match sid {
        Some(s) => if sessions.contains_key(s) {
            global + sessions[s]
        } else {
            global
        },
        None => global,
    }
}

/// The text of an optional session id.
pub open spec fn str_key(s: Option<&str>) -> Option<Seq<char>> {
    match s {
        Some(k) => Some(k@),
        None => None,
    }
}

/// Offer `frame` to each subscriber of `plan` in turn, and hand the
/// subscribers back in the same order, each with what became of its offer.
fn offer_each(plan: Vec<Registered>, frame: &Arc<EventFrame>) -> (r: (Vec<Registered>, Vec<Delivery>))
    ensures
        offered(plan@, frame, r.0@, r.1@),
        tickets(r.0@) == tickets(plan@),
{
    let ghost start = plan@;
    let mut rest = plan;
    let mut subs: Vec<Registered> = Vec::new();
    let mut out: Vec<Delivery> = Vec::new();
    assert(start.skip(0) =~= start);
    while rest.len() > 0
        invariant
            subs@.len() + rest@.len() == start.len(),
            out@.len() == subs@.len(),
            rest@ == start.skip(subs@.len() as int),
            forall|j: int| 0 <= j < subs@.len() ==> #[trigger] subs@[j].0 == start[j].0 && call_ensures(
                offer,
                (start[j].1, frame),
                (subs@[j].1, out@[j]),
            ),
        decreases rest@.len(),
    {
        let ghost n = subs@.len() as int;
        let (t, tx) = rest.remove(0);
        assert(start[n].0 == t);
        assert(start[n].1 == tx);
        let (tx, d) = offer(tx, frame);
        assert(start.skip(n + 1) =~= start.skip(n).drop_first());
        subs.push((t, tx));
        out.push(d);
    }
    assert(tickets(subs@) =~= tickets(start));
    (subs, out)
}

/// Keep, in order, the subscribers whose receiver was still there when the
/// `i`-th had outcome `out[i]`, and count each full channel as one more
/// dropped event.
fn settle(subs: Vec<Registered>, out: &Vec<Delivery>, dropped: &mut u64) -> (r: Vec<Registered>)
    requires
        subs@.len() == out@.len(),
    ensures
        tickets(r@) == kept(tickets(subs@), out@),
        *final(dropped) == add_dropped(*old(dropped), count_full(out@)),
{
    let ghost start = subs@;
    let ghost ts = tickets(start);
    let ghost d0 = *dropped;
    let mut rest = subs;
    let mut r: Vec<Registered> = Vec::new();
    let mut i: usize = 0;
    assert(kept(ts.take(0), out@.take(0)) =~= seq![]);
    assert(tickets(r@) =~= seq![]);
    assert(start.skip(0) =~= start);
    assert(out@.take(0) =~= seq![]);
    while i < out.len()
        invariant
            0 <= i <= start.len(),
            start.len() == out@.len(),
            ts == tickets(start),
            rest@ == start.skip(i as int),
            tickets(r@) == kept(ts.take(i as int), out@.take(i as int)),
            *dropped == add_dropped(d0, count_full(out@.take(i as int))),
        decreases out@.len() - i,
    {
        let (t, tx) = rest.remove(0);
        let d = out[i];
        proof {
            assert(start[i as int].0 == t);
            assert(ts.take(i + 1).drop_last() =~= ts.take(i as int));
            assert(ts.take(i + 1).last() == t@);
            assert(out@.take(i + 1).drop_last() =~= out@.take(i as int));
            assert(out@.take(i + 1).last() == d);
            assert(start.skip(i + 1) =~= start.skip(i as int).drop_first());
        }
        let ghost before = r@;
        let ghost c = count_full(out@.take(i as int));
        match d {
            Delivery::Disconnected => {},
            Delivery::Full => {
                assert(add_dropped(d0, c + 1) == add_dropped(add_dropped(d0, c), 1)) by (nonlinear_arith);
                *dropped = dropped.wrapping_add(1);
                r.push((t, tx));
                assert(tickets(r@) =~= tickets(before).push(t@));
            },
            Delivery::Sent => {
                r.push((t, tx));
                assert(tickets(r@) =~= tickets(before).push(t@));
            },
        }
        i = i + 1;
    }
    assert(ts.take(i as int) =~= ts);
    assert(out@.take(i as int) =~= out@);
    r
}

/// The subscribers of a list, one entry per session, as a map.
pub open spec fn session_lists(v: Seq<(String, Vec<Registered>)>) -> Map<Seq<char>, Seq<int>> {
    keyed(v).map_values(|l: Vec<Registered>| tickets(l@))
}

/// The registered subscribers.
pub struct EventBus {
    global: Vec<Registered>,
    sessions: Vec<(String, Vec<Registered>)>,
    dropped: u64,
    next: Ghost<int>,
}

/// The session lists after an event for `sid` was offered to the list of
/// that session with outcomes `out`: the pruned list replaces it, and a
/// session left without subscribers is forgotten; a session without
/// subscribers gets nothing.
pub open spec fn sessions_after(m: Map<Seq<char>, Seq<int>>, sid: Seq<char>, out: Seq<Delivery>) -> Map<Seq<char>, Seq<int>> {
    if m.contains_key(sid) {
        let l = kept(m[sid], out);
        if l.len() == 0 {
            m.remove(sid)
        } else {
            m.insert(sid, l)
        }
    } else {
        m
    }
}

/// The session an event belongs to, as text.
pub open spec fn session_key(s: Option<Arc<str>>) -> Option<Seq<char>> {
    match s {
        Some(k) => Some(k@),
        None => None,
    }
}

/// What publishing an event of session `sid` (none for a browser-level
/// event) did to the bus, when the global subscribers had outcomes `og`
/// and the session's subscribers outcomes `os`: the global subscribers are
/// pruned by `og`; the session's list by `os`, and forgotten when emptied;
/// the other sessions are untouched; and every `Full` outcome is one more
/// dropped event.
pub open spec fn published(b0: EventBus, b1: EventBus, sid: Option<Seq<char>>, og: Seq<Delivery>, os: Seq<Delivery>) -> bool {
    &&& og.len() == b0.global().len()
    &&& b1.global() == kept(b0.global(), og)
    &&& match sid {
        None => b1.sessions() == b0.sessions() && b1.dropped() == add_dropped(b0.dropped(), count_full(og)),
        Some(s) => b1.sessions() == sessions_after(b0.sessions(), s, os) && (b0.sessions().contains_key(s)
            ==> os.len() == b0.sessions()[s].len()) && b1.dropped() == add_dropped(
            b0.dropped(),
            count_full(og) + count_full(os),
        ),
    }
}

impl EventBus {
    /// No session occurs twice, none is without subscribers, and every
    /// subscriber's number was handed out before.
    pub closed spec fn inv(&self) -> bool {
        &&& distinct_keys(self.sessions@)
        &&& forall|i: int| 0 <= i < self.sessions@.len() ==> #[trigger] self.sessions@[i].1@.len() > 0
        &&& forall|j: int| 0 <= j < self.global@.len() ==> #[trigger] self.global@[j].0@ < self.next@
        &&& forall|i: int, j: int|
            0 <= i < self.sessions@.len() && 0 <= j < self.sessions@[i].1@.len() ==> #[trigger] self.sessions@[i].1@[j].0@
                < self.next@
    }

    /// The global subscribers, by number, in the order they came.
    pub closed spec fn global(&self) -> Seq<int> {
        tickets(self.global@)
    }

    /// The subscribers of each session, by number, in the order they came.
    pub closed spec fn sessions(&self) -> Map<Seq<char>, Seq<int>> {
        session_lists(self.sessions@)
    }

    /// The subscribers an event of session `sid` (none for a browser-level
    /// event) is offered to, in order: the global ones, then that
    /// session's.
    pub closed spec fn audience_subs(&self, sid: Option<Seq<char>>) -> Seq<Registered> {
        match sid {
            Some(s) => if keyed(self.sessions@).contains_key(s) {
                self.global@ + keyed(self.sessions@)[s]@
            } else {
                self.global@
            },
            None => self.global@,
        }
    }

    /// The number the next subscriber is registered under.
    pub closed spec fn next_ticket(&self) -> int {
        self.next@
    }

    /// How many events were lost to full channels, wrapping around.
    pub closed spec fn dropped(&self) -> u64 {
        self.dropped
    }

    /// A bus without subscribers.
    pub fn new() -> (b: Self)
        ensures
            b.inv(),
            b.global() == Seq::<int>::empty(),
            b.sessions() == Map::<Seq<char>, Seq<int>>::empty(),
            b.dropped() == 0,
    {
        let b = EventBus { global: Vec::new(), sessions: Vec::new(), dropped: 0, next: Ghost(0) };
        assert(b.sessions() =~= Map::<Seq<char>, Seq<int>>::empty());
        assert(b.global() =~= Seq::<int>::empty());
        b
    }

    /// How many events were lost to full channels since the bus was made
    /// (wrapping around).
    pub fn dropped_event_count(&self) -> (n: u64)
        ensures
            n == self.dropped(),
    {
        self.dropped
    }

    /// How many subscribers are registered globally (`None`) or for a
    /// session.
    pub fn subscriber_count(&self, session_id: Option<&str>) -> (n: usize)
        requires
            self.inv(),
        ensures
            n == match session_id {
                None => self.global().len(),
                Some(s) => if self.sessions().contains_key(s@) {
                    self.sessions()[s@].len()
                } else {
                    0
                },
            },
    {
        match session_id {
            None => self.global.len(),
            Some(s) => match position_of(&self.sessions, s) {
                Some(i) => {
                    proof {
                        lemma_keyed_index(self.sessions@, i as int);
                    }
                    self.sessions[i].1.len()
                },
                None => 0,
            },
        }
    }

    /// Register `tx` globally (`None`) or for a session, under the next
    /// number; it comes after the subscribers already there.
    pub fn subscribe_with_sender(&mut self, session_id: Option<Arc<str>>, tx: Subscriber)
        requires
            old(self).inv(),
        ensures
            final(self).inv(),
            final(self).dropped() == old(self).dropped(),
            final(self).next_ticket() == old(self).next_ticket() + 1,
            match session_id {
                None => final(self).global() == old(self).global().push(old(self).next_ticket())
                    && final(self).sessions() == old(self).sessions(),
                Some(s) => final(self).global() == old(self).global() && final(self).sessions()
                    == old(self).sessions().insert(
                    s@,
                    if old(self).sessions().contains_key(s@) {
                        old(self).sessions()[s@].push(old(self).next_ticket())
                    } else {
                        seq![old(self).next_ticket()]
                    },
                ),
            },
    {
        let ghost t = self.next@;
        let entry: Registered = (Ghost(t), tx);
        self.next = Ghost(t + 1);
        match session_id {
            None => {
                let ghost before = self.global@;
                self.global.push(entry);
                assert(tickets(self.global@) =~= tickets(before).push(t));
                assert forall|i: int, j: int|
                    0 <= i < self.sessions@.len() && 0 <= j < self.sessions@[i].1@.len() implies #[trigger] self.sessions@[i].1@[j].0@
                        < self.next@ by {}
            },
            Some(sid) => {
                let key: &str = &sid;
                let ghost before = self.sessions@;
                proof {
                    assert forall|j: int| 0 <= j < self.global@.len() implies #[trigger] self.global@[j].0@ < self.next@ by {}
                }
                match position_of(&self.sessions, key) {
                    Some(i) => {
                        proof {
                            lemma_keyed_index(before, i as int);
                            lemma_keyed_remove(before, i as int);
                        }
                        let (k, mut list) = self.sessions.remove(i);
                        let ghost old_list = list@;
                        list.push(entry);
                        proof {
                            assert(tickets(list@) =~= tickets(old_list).push(t));
                            lemma_keyed_push(self.sessions@, (k, list));
                        }
                        self.sessions.push((k, list));
                        proof {
                            let w = before.remove(i as int);
                            assert forall|j: int| 0 <= j < self.sessions@.len() implies #[trigger] self.sessions@[j].1@.len() > 0 by {
                                if j < self.sessions@.len() - 1 {
                                    assert(self.sessions@[j] == w[j]);
                                    let j2 = if j < i { j } else { j + 1 };
                                    assert(w[j] == before[j2]);
                                }
                            }
                            assert forall|a: int, b: int|
                                0 <= a < self.sessions@.len() && 0 <= b < self.sessions@[a].1@.len() implies #[trigger] self.sessions@[a].1@[b].0@
                                    < self.next@ by {
                                if a < self.sessions@.len() - 1 {
                                    assert(self.sessions@[a] == w[a]);
                                    let a2 = if a < i { a } else { a + 1 };
                                    assert(w[a] == before[a2]);
                                } else if b < old_list.len() {
                                    assert(self.sessions@[a].1@[b] == before[i as int].1@[b]);
                                }
                            }
                            assert(self.sessions() =~= old(self).sessions().insert(
                                key@,
                                old(self).sessions()[key@].push(t),
                            ));
                        }
                    },
                    None => {
                        let k = key.to_owned();
                        let list = vec![entry];
                        proof {
                            assert(tickets(list@) =~= seq![t]);
                            lemma_keyed_push(before, (k, list));
                        }
                        self.sessions.push((k, list));
                        proof {
                            assert forall|j: int| 0 <= j < self.sessions@.len() implies #[trigger] self.sessions@[j].1@.len() > 0 by {
                                if j < before.len() {
                                    assert(self.sessions@[j] == before[j]);
                                }
                            }
                            assert forall|a: int, b: int|
                                0 <= a < self.sessions@.len() && 0 <= b < self.sessions@[a].1@.len() implies #[trigger] self.sessions@[a].1@[b].0@
                                    < self.next@ by {
                                if a < before.len() {
                                    assert(self.sessions@[a] == before[a]);
                                }
                            }
                            assert(self.sessions() =~= old(self).sessions().insert(key@, seq![t]));
                        }
                    },
                }
            },
        }
    }

    /// Register a new subscriber globally (`None`) or for a session, under
    /// the next number, and hand back its receiving end.
    pub fn subscribe(&mut self, session_id: Option<Arc<str>>) -> (rx: mpsc::Receiver<Arc<EventFrame>>)
        requires
            old(self).inv(),
        ensures
            final(self).inv(),
            final(self).dropped() == old(self).dropped(),
            final(self).next_ticket() == old(self).next_ticket() + 1,
            match session_id {
                None => final(self).global() == old(self).global().push(old(self).next_ticket())
                    && final(self).sessions() == old(self).sessions(),
                Some(s) => final(self).global() == old(self).global() && final(self).sessions()
                    == old(self).sessions().insert(
                    s@,
                    if old(self).sessions().contains_key(s@) {
                        old(self).sessions()[s@].push(old(self).next_ticket())
                    } else {
                        seq![old(self).next_ticket()]
                    },
                ),
            },
    {
        let (tx, rx) = event_channel();
        self.subscribe_with_sender(session_id, tx);
        rx
    }

    /// Take out of the bus, in order, the subscribers an event of session
    /// `session_id` (none for a browser-level event) is to be offered to:
    /// every global subscriber, then every subscriber of that session. The
    /// second part of the result is how many of them are global.
    pub fn take_audience(&mut self, session_id: Option<&str>) -> (r: (Vec<Registered>, usize))
        requires
            old(self).inv(),
        ensures
            final(self).inv(),
            r.0@ == old(self).audience_subs(str_key(session_id)),
            tickets(r.0@) == audience(old(self).global(), old(self).sessions(), str_key(session_id)),
            r.1 == old(self).global().len(),
            final(self).global() == Seq::<int>::empty(),
            final(self).sessions() == match session_id {
                Some(s) => old(self).sessions().remove(s@),
                None => old(self).sessions(),
            },
            final(self).dropped() == old(self).dropped(),
            final(self).next_ticket() == old(self).next_ticket(),
            forall|j: int| 0 <= j < r.0@.len() ==> #[trigger] r.0@[j].0@ < old(self).next_ticket(),
    {
        let mut plan: Vec<Registered> = Vec::new();
        std::mem::swap(&mut plan, &mut self.global);
        let n = plan.len();
        let ghost g0 = plan@;
        match session_id {
            Some(key) => {
                let ghost before = self.sessions@;
                match position_of(&self.sessions, key) {
                    Some(i) => {
                        proof {
                            lemma_keyed_index(before, i as int);
                            lemma_keyed_remove(before, i as int);
                        }
                        let (_k, mut list) = self.sessions.remove(i);
                        let ghost l0 = list@;
                        plan.append(&mut list);
                        proof {
                            assert(l0 == keyed(before)[key@]@);
                            assert(plan@ =~= old(self).audience_subs(str_key(session_id)));
                            assert(tickets(plan@) =~= tickets(g0) + tickets(l0));
                            let w = self.sessions@;
                            assert forall|j: int| 0 <= j < w.len() implies #[trigger] w[j].1@.len() > 0 by {
                                assert(w[j] == before[if j < i { j } else { j + 1 }]);
                            }
                            assert forall|a: int, b: int|
                                0 <= a < w.len() && 0 <= b < w[a].1@.len() implies #[trigger] w[a].1@[b].0@ < self.next@ by {
                                assert(w[a] == before[if a < i { a } else { a + 1 }]);
                            }
                            assert forall|j: int| 0 <= j < plan@.len() implies #[trigger] plan@[j].0@ < self.next@ by {
                                if j >= g0.len() {
                                    assert(plan@[j] == before[i as int].1@[j - g0.len()]);
                                }
                            }
                            assert(self.sessions() =~= old(self).sessions().remove(key@));
                        }
                    },
                    None => {
                        assert(old(self).sessions().remove(key@) =~= old(self).sessions());
                        assert(plan@ =~= old(self).audience_subs(str_key(session_id)));
                    },
                }
            },
            None => {},
        }
        assert(self.global() =~= Seq::<int>::empty());
        (plan, n)
    }

    /// Put back the subscribers an event of session `session_id` was
    /// offered to (the first `n_global` of `subs` being the global ones),
    /// the `i`-th having had outcome `out[i]`: those whose receiver is gone
    /// are pruned, every full channel is one more dropped event, and the
    /// session's list comes back only when someone is left in it.
    pub fn apply_outcomes(&mut self, session_id: Option<&str>, n_global: usize, subs: Vec<Registered>, out: Vec<Delivery>)
        requires
            old(self).inv(),
            old(self).global().len() == 0,
            match session_id {
                Some(s) => !old(self).sessions().contains_key(s@),
                None => n_global == subs@.len(),
            },
            subs@.len() == out@.len(),
            n_global <= subs@.len(),
            forall|j: int| 0 <= j < subs@.len() ==> #[trigger] subs@[j].0@ < old(self).next_ticket(),
        ensures
            final(self).inv(),
            final(self).next_ticket() == old(self).next_ticket(),
            final(self).global() == kept(tickets(subs@).take(n_global as int), out@.take(n_global as int)),
            ({
                let l = kept(tickets(subs@).skip(n_global as int), out@.skip(n_global as int));
                final(self).sessions() == match session_id {
                    Some(s) => if l.len() == 0 {
                        old(self).sessions()
                    } else {
                        old(self).sessions().insert(s@, l)
                    },
                    None => old(self).sessions(),
                }
            }),
            final(self).dropped() == add_dropped(old(self).dropped(), count_full(out@)),
    {
        let ghost s0 = subs@;
        let ghost o0 = out@;
        let ghost d0 = self.dropped;
        let mut first = subs;
        let second = first.split_off(n_global);
        let mut out_first = out;
        let out_second = out_first.split_off(n_global);
        let ghost f0 = first@;
        let ghost sec0 = second@;
        proof {
            assert(tickets(f0) =~= tickets(s0).take(n_global as int));
            assert(tickets(sec0) =~= tickets(s0).skip(n_global as int));
            assert(out_first@ =~= o0.take(n_global as int));
            assert(out_second@ =~= o0.skip(n_global as int));
            assert(o0 =~= out_first@ + out_second@);
            lemma_count_full_concat(out_first@, out_second@);
        }
        let g = settle(first, &out_first, &mut self.dropped);
        proof {
            assert forall|j: int| 0 <= j < f0.len() implies #[trigger] f0[j].0@ < self.next@ by {
                assert(f0[j] == s0[j]);
            }
            lemma_kept_from(f0, g@, out_first@, self.next@);
        }
        self.global = g;
        let ghost d1 = self.dropped;
        match session_id {
            Some(key) => {
                let l = settle(second, &out_second, &mut self.dropped);
                proof {
                    assert forall|j: int| 0 <= j < sec0.len() implies #[trigger] sec0[j].0@ < self.next@ by {
                        assert(sec0[j] == s0[j + n_global]);
                    }
                    lemma_kept_from(sec0, l@, out_second@, self.next@);
                    assert(add_dropped(add_dropped(d0, count_full(out_first@)), count_full(out_second@))
                        == add_dropped(d0, count_full(out_first@) + count_full(out_second@))) by (nonlinear_arith);
                }
                if l.len() > 0 {
                    let k = key.to_owned();
                    let ghost before = self.sessions@;
                    proof {
                        lemma_keyed_push(before, (k, l));
                    }
                    self.sessions.push((k, l));
                    proof {
                        assert forall|j: int| 0 <= j < self.sessions@.len() implies #[trigger] self.sessions@[j].1@.len() > 0 by {
                            if j < before.len() {
                                assert(self.sessions@[j] == before[j]);
                            }
                        }
                        assert forall|a: int, b: int|
                            0 <= a < self.sessions@.len() && 0 <= b < self.sessions@[a].1@.len() implies #[trigger] self.sessions@[a].1@[b].0@
                                < self.next@ by {
                            if a < before.len() {
                                assert(self.sessions@[a] == before[a]);
                            }
                        }
                        assert(self.sessions() =~= old(self).sessions().insert(key@, tickets(l@)));
                    }
                }
            },
            None => {
                proof {
                    assert(sec0.len() == 0);
                    assert(out_second@.len() == 0);
                    assert(count_full(out_second@) == 0);
                    assert(tickets(sec0) =~= seq![]);
                    assert(out_first@ + out_second@ =~= out_first@);
                }
            },
        }
    }

    /// Offer `frame` to the global subscribers and, when it belongs to a
    /// session, to that session's subscribers, in that order (the audience
    /// that `take_audience` lays out); subscribers whose receiver is gone
    /// are pruned, events lost to full channels are counted, and a session
    /// left without subscribers is forgotten (`apply_outcomes`).
    pub fn publish(&mut self, frame: Arc<EventFrame>)
        requires
            old(self).inv(),
        ensures
            final(self).inv(),
            final(self).next_ticket() == old(self).next_ticket(),
            tickets(old(self).audience_subs(session_key(frame.session_id))) == audience(
                old(self).global(),
                old(self).sessions(),
                session_key(frame.session_id),
            ),
            exists|after: Seq<Registered>, og: Seq<Delivery>, os: Seq<Delivery>|
                #![trigger offered(old(self).audience_subs(session_key(frame.session_id)), &frame, after, og + os)]
                offered(old(self).audience_subs(session_key(frame.session_id)), &frame, after, og + os)
                    && published(*old(self), *final(self), session_key(frame.session_id), og, os),
    {
        let sid: Option<&str> = match &frame.session_id {
            Some(s) => {
                let key: &str = &s;
                Some(key)
            },
            None => None,
        };
        assert(str_key(sid) == session_key(frame.session_id));
        let ghost b0 = *self;
        let ghost g = b0.global();
        let ghost m = b0.sessions();
        let (plan, n_global) = self.take_audience(sid);
        let ghost p0 = plan@;
        let (subs, out) = offer_each(plan, &frame);
        let ghost after = subs@;
        let ghost ts = tickets(subs@);
        let ghost o = out@;
        let ghost og = o.take(n_global as int);
        let ghost os = o.skip(n_global as int);
        proof {
            assert(tickets(subs@).len() == subs@.len());
            assert(tickets(p0).len() == p0.len());
            assert forall|j: int| 0 <= j < subs@.len() implies #[trigger] subs@[j].0@ < self.next_ticket() by {
                assert(tickets(subs@)[j] == subs@[j].0@);
                assert(tickets(p0)[j] == p0[j].0@);
            }
            assert(ts.take(n_global as int) =~= g);
            match sid {
                Some(s) => {
                    if m.contains_key(s@) {
                        assert(ts.skip(n_global as int) =~= m[s@]);
                    } else {
                        assert(ts.skip(n_global as int) =~= seq![]);
                    }
                },
                None => {},
            }
        }
        self.apply_outcomes(sid, n_global, subs, out);
        proof {
            assert(o =~= og + os);
            lemma_count_full_concat(og, os);
            match sid {
                Some(s) => {
                    let l = kept(ts.skip(n_global as int), os);
                    if m.contains_key(s@) {
                        if l.len() != 0 {
                            assert(m.remove(s@).insert(s@, l) =~= m.insert(s@, l));
                        }
                    } else {
                        assert(l == Seq::<int>::empty());
                        assert(m.remove(s@) =~= m);
                    }
                    assert(self.sessions() == sessions_after(m, s@, os));
                },
                None => {
                    assert(os =~= seq![]);
                    assert(count_full(os) == 0);
                },
            }
            assert(published(b0, *self, session_key(frame.session_id), og, os));
            assert(offered(b0.audience_subs(session_key(frame.session_id)), &frame, after, og + os));
        }
    }

    /// Drop every subscriber, as when the connection closes.
    pub fn close_all(&mut self)
        requires
            old(self).inv(),
        ensures
            final(self).inv(),
            final(self).global() == Seq::<int>::empty(),
            final(self).sessions() == Map::<Seq<char>, Seq<int>>::empty(),
            final(self).dropped() == old(self).dropped(),
            final(self).next_ticket() == old(self).next_ticket(),
    {
        self.global.clear();
        self.sessions.clear();
        assert(self.sessions() =~= Map::<Seq<char>, Seq<int>>::empty());
        assert(self.global() =~= Seq::<int>::empty());
    }
}

/// Counting full channels over two runs of outcomes adds up.
proof fn lemma_count_full_concat(a: Seq<Delivery>, b: Seq<Delivery>)
    ensures
        count_full(a + b) == count_full(a) + count_full(b),
    decreases b.len(),
{
    if b.len() == 0 {
        assert(a + b =~= a);
    } else {
        assert((a + b).drop_last() =~= a + b.drop_last());
        assert((a + b).last() == b.last());
        lemma_count_full_concat(a, b.drop_last());
    }
}

/// A subscriber that stays after an offer keeps its number, so the numbers
/// that were all below `next` still are.
proof fn lemma_kept_from(before: Seq<Registered>, after: Seq<Registered>, out: Seq<Delivery>, next: int)
    requires
        forall|j: int| 0 <= j < before.len() ==> #[trigger] before[j].0@ < next,
        out.len() == before.len(),
        tickets(after) == kept(tickets(before), out),
    ensures
        forall|j: int| 0 <= j < after.len() ==> #[trigger] after[j].0@ < next,
{
    assert forall|j: int| 0 <= j < after.len() implies #[trigger] after[j].0@ < next by {
        lemma_kept_members(tickets(before), out, next);
        assert(tickets(after)[j] == after[j].0@);
    }
}

proof fn lemma_kept_members(ts: Seq<int>, out: Seq<Delivery>, next: int)
    requires
        forall|j: int| 0 <= j < ts.len() ==> #[trigger] ts[j] < next,
        out.len() == ts.len(),
    ensures
        forall|j: int| 0 <= j < kept(ts, out).len() ==> #[trigger] kept(ts, out)[j] < next,
    decreases ts.len(),
{
    if ts.len() > 0 {
        let rest = kept(ts.drop_last(), out.drop_last());
        lemma_kept_members(ts.drop_last(), out.drop_last(), next);
        assert(ts.last() < next);
        assert forall|j: int| 0 <= j < kept(ts, out).len() implies #[trigger] kept(ts, out)[j] < next by {
            if j < rest.len() {
                assert(kept(ts, out)[j] == rest[j]);
            }
        }
    }
}

/// An event of a session is offered to every global subscriber and every
/// subscriber of that session, and to no one else; a browser-level event
/// only to the global subscribers.
pub proof fn law_audience_is_global_and_own_session(g: Seq<int>, m: Map<Seq<char>, Seq<int>>, s: Seq<char>, x: int)
    ensures
        audience(g, m, Some(s)).contains(x) <==> (g.contains(x) || (m.contains_key(s) && m[s].contains(x))),
        audience(g, m, None) == g,
{
    if m.contains_key(s) {
        let a = g + m[s];
        if a.contains(x) {
            let i = choose|i: int| 0 <= i < a.len() && a[i] == x;
            if i < g.len() {
                assert(g[i] == x);
            } else {
                assert(m[s][i - g.len()] == x);
            }
        }
        if g.contains(x) {
            let i = choose|i: int| 0 <= i < g.len() && g[i] == x;
            assert(a[i] == x);
        }
        if m[s].contains(x) {
            let i = choose|i: int| 0 <= i < m[s].len() && m[s][i] == x;
            assert(a[i + g.len()] == x);
        }
    }
}

/// Publishing a browser-level event leaves the session subscribers as they
/// were.
pub proof fn law_browser_events_leave_sessions_alone(b0: EventBus, b1: EventBus, og: Seq<Delivery>, os: Seq<Delivery>)
    requires
        published(b0, b1, None, og, os),
    ensures
        b1.sessions() == b0.sessions(),
{
}

/// Publishing an event of one session leaves every other session's
/// subscribers as they were.
pub proof fn law_sessions_are_isolated(b0: EventBus, b1: EventBus, s: Seq<char>, k: Seq<char>, og: Seq<Delivery>, os: Seq<Delivery>)
    requires
        published(b0, b1, Some(s), og, os),
        k != s,
    ensures
        b1.sessions().contains_key(k) == b0.sessions().contains_key(k),
        b0.sessions().contains_key(k) ==> b1.sessions()[k] == b0.sessions()[k],
{
}

/// Every subscriber whose receiver was still there when an event was
/// offered (whether its channel took the event or was full) is kept, and
/// one whose receiver was gone is not (numbers being distinct).
pub proof fn law_only_gone_receivers_are_pruned(ts: Seq<int>, out: Seq<Delivery>, j: int)
    requires
        out.len() == ts.len(),
        0 <= j < ts.len(),
        ts.no_duplicates(),
    ensures
        kept(ts, out).contains(ts[j]) <==> out[j] != Delivery::Disconnected,
    decreases ts.len(),
{
    let n = ts.len();
    let rest = kept(ts.drop_last(), out.drop_last());
    if j < n - 1 {
        law_only_gone_receivers_are_pruned(ts.drop_last(), out.drop_last(), j);
        assert(ts.drop_last()[j] == ts[j]);
        assert(out.drop_last()[j] == out[j]);
        assert(ts[j] != ts.last());
        if kept(ts, out).contains(ts[j]) {
            let m = choose|m: int| 0 <= m < kept(ts, out).len() && kept(ts, out)[m] == ts[j];
            if m < rest.len() {
                assert(rest[m] == ts[j]);
            }
        }
        if rest.contains(ts[j]) {
            let m = choose|m: int| 0 <= m < rest.len() && rest[m] == ts[j];
            if out.last() != Delivery::Disconnected {
                assert(kept(ts, out)[m] == ts[j]);
            }
        }
    } else {
        lemma_kept_subset(ts.drop_last(), out.drop_last());
        if out.last() != Delivery::Disconnected {
            assert(kept(ts, out)[rest.len() as int] == ts[j]);
        } else if rest.contains(ts[j]) {
            let m = choose|m: int| 0 <= m < rest.len() && rest[m] == ts[j];
            assert(ts.drop_last().contains(ts[j]));
            let q = choose|q: int| 0 <= q < ts.drop_last().len() && ts.drop_last()[q] == ts[j];
            assert(ts[q] == ts[j]);
        }
    }
}

proof fn lemma_kept_subset(ts: Seq<int>, out: Seq<Delivery>)
    requires
        out.len() == ts.len(),
    ensures
        forall|x: int| #[trigger] kept(ts, out).contains(x) ==> ts.contains(x),
    decreases ts.len(),
{
    if ts.len() > 0 {
        let rest = kept(ts.drop_last(), out.drop_last());
        lemma_kept_subset(ts.drop_last(), out.drop_last());
        assert forall|x: int| #[trigger] kept(ts, out).contains(x) implies ts.contains(x) by {
            let m = choose|m: int| 0 <= m < kept(ts, out).len() && kept(ts, out)[m] == x;
            if m < rest.len() {
                assert(rest[m] == x);
                assert(rest.contains(x));
                let q = choose|q: int| 0 <= q < ts.drop_last().len() && ts.drop_last()[q] == x;
                assert(ts[q] == x);
            } else {
                assert(ts[ts.len() - 1] == x);
            }
        }
    }
}

} // verus!
