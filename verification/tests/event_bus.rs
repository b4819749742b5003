use std::sync::Arc;

use chromist::event_bus::{Delivery, EventBus, EventFrame};
use futures::channel::mpsc;

fn make_frame(method: &str, session_id: Option<Arc<str>>) -> Arc<EventFrame> {
    Arc::new(EventFrame { method: method.to_string(), params: serde_json::Value::Null, session_id })
}

#[test]
fn test_global_subscriber_receives_event() {
    let mut bus = EventBus::new();
    let mut rx = bus.subscribe(None);
    let frame = make_frame("Page.loadEventFired", None);
    bus.publish(Arc::clone(&frame));
    let received = rx.try_recv().expect("expected a frame");
    assert_eq!(received.method, "Page.loadEventFired");
}

#[test]
fn test_session_subscriber_receives_matching() {
    let mut bus = EventBus::new();
    let sid: Arc<str> = Arc::from("abc");
    let mut rx = bus.subscribe(Some(Arc::clone(&sid)));
    let frame = make_frame("Network.requestWillBeSent", Some(Arc::clone(&sid)));
    bus.publish(Arc::clone(&frame));
    let received = rx.try_recv().expect("expected a frame");
    assert_eq!(received.method, "Network.requestWillBeSent");
}

#[test]
fn test_session_subscriber_skips_other_session() {
    let mut bus = EventBus::new();
    let sid_abc: Arc<str> = Arc::from("abc");
    let sid_xyz: Arc<str> = Arc::from("xyz");
    let mut rx = bus.subscribe(Some(Arc::clone(&sid_abc)));
    let frame = make_frame("Network.requestWillBeSent", Some(Arc::clone(&sid_xyz)));
    bus.publish(frame);
    assert!(rx.try_recv().is_err(), "should not receive event for different session");
}

#[test]
fn test_pruning_disconnected_subscriber() {
    let mut bus = EventBus::new();
    let rx = bus.subscribe(None);
    drop(rx);
    assert_eq!(bus.subscriber_count(None), 1, "sender still present before publish");
    let frame = make_frame("Page.loadEventFired", None);
    bus.publish(frame);
    assert_eq!(bus.subscriber_count(None), 0, "disconnected sender should be pruned after publish");
}

#[test]
fn multi_subscribers_global_fanout() {
    let mut bus = EventBus::new();
    let mut a = bus.subscribe(None);
    let mut b = bus.subscribe(None);
    let mut c = bus.subscribe(None);
    let frame = make_frame("Page.loadEventFired", None);
    bus.publish(Arc::clone(&frame));
    assert_eq!(a.try_recv().expect("a").method, "Page.loadEventFired");
    assert_eq!(b.try_recv().expect("b").method, "Page.loadEventFired");
    assert_eq!(c.try_recv().expect("c").method, "Page.loadEventFired");
}

#[test]
fn multiple_session_ids_are_isolated() {
    let mut bus = EventBus::new();
    let sid_a: Arc<str> = Arc::from("a");
    let sid_b: Arc<str> = Arc::from("b");
    let mut rx_a = bus.subscribe(Some(Arc::clone(&sid_a)));
    let mut rx_b = bus.subscribe(Some(Arc::clone(&sid_b)));
    bus.publish(make_frame("X.y", Some(Arc::clone(&sid_a))));
    assert!(rx_a.try_recv().is_ok());
    assert!(rx_b.try_recv().is_err());
    bus.publish(make_frame("X.y", Some(Arc::clone(&sid_b))));
    assert!(rx_a.try_recv().is_err());
    assert!(rx_b.try_recv().is_ok());
}

#[test]
fn global_subscriber_also_gets_session_events() {
    let mut bus = EventBus::new();
    let sid: Arc<str> = Arc::from("s");
    let mut rx_global = bus.subscribe(None);
    let mut rx_session = bus.subscribe(Some(Arc::clone(&sid)));
    bus.publish(make_frame("E", Some(Arc::clone(&sid))));
    assert_eq!(rx_global.try_recv().expect("global").method, "E");
    assert_eq!(rx_session.try_recv().expect("session").method, "E");
}

#[test]
fn full_channel_drops_event_but_retains_subscriber() {
    let mut bus = EventBus::new();
    let (tx, mut rx) = mpsc::channel::<Arc<EventFrame>>(1);
    bus.subscribe_with_sender(None, tx);
    bus.publish(make_frame("one", None));
    bus.publish(make_frame("two", None));
    bus.publish(make_frame("three", None));
    let first = rx.try_recv().expect("first");
    assert_eq!(first.method, "one");
    assert_eq!(bus.subscriber_count(None), 1, "subscriber must not be pruned on full");
    assert!(bus.dropped_event_count() >= 1);
}

#[test]
fn publish_without_session_id_skips_session_lookup() {
    let mut bus = EventBus::new();
    let sid: Arc<str> = Arc::from("orphan");
    let mut rx = bus.subscribe(Some(Arc::clone(&sid)));
    bus.publish(make_frame("E", None));
    assert!(rx.try_recv().is_err());
}

#[test]
fn test_close_all() {
    let mut bus = EventBus::new();
    let sid: Arc<str> = Arc::from("s1");
    let mut rx_global = bus.subscribe(None);
    let mut rx_session = bus.subscribe(Some(Arc::clone(&sid)));
    bus.close_all();
    let frame = make_frame("Page.loadEventFired", Some(Arc::clone(&sid)));
    bus.publish(frame);
    assert!(rx_global.try_recv().is_err(), "global rx should be disconnected");
    assert!(rx_session.try_recv().is_err(), "session rx should be disconnected");
}

#[test]
fn an_emptied_session_is_forgotten() {
    let mut bus = EventBus::new();
    let sid: Arc<str> = Arc::from("gone");
    let rx = bus.subscribe(Some(Arc::clone(&sid)));
    assert_eq!(bus.subscriber_count(Some("gone")), 1);
    drop(rx);
    bus.publish(make_frame("E", Some(Arc::clone(&sid))));
    assert_eq!(bus.subscriber_count(Some("gone")), 0);
    assert_eq!(bus.dropped_event_count(), 0);
}

struct LoadEventFired;

impl chromist::types::MethodType for LoadEventFired {
    fn method_id() -> std::borrow::Cow<'static, str> {
        std::borrow::Cow::Borrowed("Page.loadEventFired")
    }
}

fn frame(method: &str) -> EventFrame {
    EventFrame { method: method.to_string(), params: serde_json::Value::Null, session_id: None }
}

#[test]
fn is_returns_true_for_matching_type() {
    let f = frame("Page.loadEventFired");
    assert!(f.is::<LoadEventFired>());
    assert!(f.has_method("Page.loadEventFired"));
}

#[test]
fn is_returns_false_for_other_type() {
    let f = frame("Network.requestWillBeSent");
    assert!(!f.is::<LoadEventFired>());
    assert!(!f.has_method("Page.loadEventFired"));
}

#[test]
fn audience_is_global_then_own_session_and_goes_back() {
    let mut bus = EventBus::new();
    let _g = bus.subscribe(None);
    let _a = bus.subscribe(Some(Arc::from("A")));
    let _a2 = bus.subscribe(Some(Arc::from("A")));
    let b = bus.subscribe(Some(Arc::from("B")));
    drop(b);
    let (plan, n_global) = bus.take_audience(Some("A"));
    assert_eq!(plan.len(), 3);
    assert_eq!(n_global, 1);
    assert_eq!(bus.subscriber_count(None), 0);
    assert_eq!(bus.subscriber_count(Some("A")), 0);
    assert_eq!(bus.subscriber_count(Some("B")), 1);
    let out = vec![Delivery::Sent, Delivery::Full, Delivery::Disconnected];
    bus.apply_outcomes(Some("A"), n_global, plan, out);
    assert_eq!(bus.subscriber_count(None), 1);
    assert_eq!(bus.subscriber_count(Some("A")), 1);
    assert_eq!(bus.dropped_event_count(), 1);
}

#[test]
fn browser_event_audience_is_the_global_subscribers() {
    let mut bus = EventBus::new();
    let _g = bus.subscribe(None);
    let _g2 = bus.subscribe(None);
    let _a = bus.subscribe(Some(Arc::from("A")));
    let (plan, n_global) = bus.take_audience(None);
    assert_eq!(plan.len(), 2);
    assert_eq!(n_global, 2);
    assert_eq!(bus.subscriber_count(Some("A")), 1);
    bus.apply_outcomes(None, n_global, plan, vec![Delivery::Disconnected, Delivery::Disconnected]);
    assert_eq!(bus.subscriber_count(None), 0);
    assert_eq!(bus.dropped_event_count(), 0);
}
