use std::sync::Arc;

use chromist::error::CdpError;
use chromist::event_bus::EventFrame;
use chromist::dispatch::send_answers;
use chromist::handler::{answer_result, HandlerAction, HandlerCore, HandlerInput};
use chromist::types::{self as wire, CallId};
use futures::channel::{mpsc, oneshot};
use serde_json::Value;

/// One step of the task, with its answers handed to the callers.
fn step(core: &mut HandlerCore, input: HandlerInput) -> HandlerAction {
    let (action, answers) = core.step(input);
    send_answers(answers);
    action
}

fn recv_now<T>(mut rx: oneshot::Receiver<T>) -> T {
    match rx.try_recv() {
        Ok(Some(v)) => v,
        _ => panic!("expected an answer"),
    }
}

#[test]
fn response_correlation_round_trips() {
    let mut core = HandlerCore::new(30_000);
    let (tx, rx) = oneshot::channel();
    let a = step(&mut core, HandlerInput::Command { id: CallId::new(7), tx, now_ms: 0 });
    assert_eq!(a, HandlerAction::Continue);
    assert_eq!(core.dispatch.pending_count(), 1);
    let a = step(&mut core, HandlerInput::Answer { id: CallId::new(7), result: Some(Value::from(42)), error: None });
    assert_eq!(a, HandlerAction::Continue);
    assert_eq!(core.dispatch.pending_count(), 0);
    let got = recv_now(rx).expect("a result");
    assert_eq!(got, Value::from(42));
}

#[test]
fn browser_errors_reach_the_caller() {
    let mut core = HandlerCore::new(30_000);
    let (tx, rx) = oneshot::channel();
    step(&mut core, HandlerInput::Command { id: CallId::new(1), tx, now_ms: 0 });
    step(&mut core, HandlerInput::Answer {
        id: CallId::new(1),
        result: None,
        error: Some(wire::CdpError::new(-32601, "method not found")),
    });
    match recv_now(rx) {
        Err(CdpError::Cdp { code, message }) => {
            assert_eq!(code, -32601);
            assert_eq!(message, "method not found");
        }
        other => panic!("unexpected {other:?}"),
    }
}

#[test]
fn an_answer_without_result_is_null() {
    assert_eq!(answer_result(None, None).expect("ok"), Value::Null);
    assert_eq!(answer_result(Some(Value::from("x")), None).expect("ok"), Value::from("x"));
}

#[test]
fn disconnect_fails_pending_callers() {
    let mut core = HandlerCore::new(30_000);
    let (tx1, rx1) = oneshot::channel();
    let (tx2, rx2) = oneshot::channel();
    step(&mut core, HandlerInput::Command { id: CallId::new(1), tx: tx1, now_ms: 0 });
    step(&mut core, HandlerInput::Command { id: CallId::new(2), tx: tx2, now_ms: 0 });
    let (stx, _srx) = mpsc::channel(4);
    step(&mut core, HandlerInput::Subscribe { session_id: None, tx: stx });
    let a = step(&mut core, HandlerInput::ConnectionEnded);
    assert_eq!(a, HandlerAction::Stop);
    assert!(core.closed);
    assert!(matches!(recv_now(rx1), Err(CdpError::ChannelClosed)));
    assert!(matches!(recv_now(rx2), Err(CdpError::ChannelClosed)));
    assert_eq!(core.dispatch.pending_count(), 0);
    assert_eq!(core.bus.subscriber_count(None), 0);
}

#[test]
fn shutdown_stops_without_answering() {
    let mut core = HandlerCore::new(30_000);
    let (tx, _rx) = oneshot::channel();
    step(&mut core, HandlerInput::Command { id: CallId::new(3), tx, now_ms: 0 });
    assert_eq!(step(&mut core, HandlerInput::Shutdown), HandlerAction::Stop);
    assert!(!core.closed);
    assert_eq!(core.dispatch.pending_count(), 1);
}

#[test]
fn ticks_time_out_old_calls() {
    let mut core = HandlerCore::new(1_000);
    let (tx_old, rx_old) = oneshot::channel();
    let (tx_new, _rx_new) = oneshot::channel();
    step(&mut core, HandlerInput::Command { id: CallId::new(1), tx: tx_old, now_ms: 0 });
    step(&mut core, HandlerInput::Command { id: CallId::new(2), tx: tx_new, now_ms: 900 });
    assert_eq!(step(&mut core, HandlerInput::Tick { now_ms: 1_500 }), HandlerAction::Continue);
    assert!(matches!(recv_now(rx_old), Err(CdpError::Timeout)));
    assert_eq!(core.dispatch.pending_count(), 1);
}

#[test]
fn events_reach_their_subscribers() {
    let mut core = HandlerCore::new(30_000);
    let (tx, mut rx) = mpsc::channel(4);
    step(&mut core, HandlerInput::Subscribe { session_id: Some(Arc::from("S-1")), tx });
    let frame = Arc::new(EventFrame {
        method: "Page.loadEventFired".to_string(),
        params: Value::Null,
        session_id: Some(Arc::from("S-1")),
    });
    assert_eq!(step(&mut core, HandlerInput::Event(frame)), HandlerAction::Continue);
    assert_eq!(rx.try_recv().expect("a frame").method, "Page.loadEventFired");
}
