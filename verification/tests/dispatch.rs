use chromist::dispatch::{send_answers, CommandDispatcher};
use chromist::error::CdpError;
use chromist::types::CallId;
use futures::channel::oneshot;
use serde_json::Value;

fn recv_now<T>(mut rx: oneshot::Receiver<T>) -> T {
    match rx.try_recv() {
        Ok(Some(v)) => v,
        other => panic!("expected Ok(Some(_)), got: {:?}", other.map(|o| o.map(|_| "<val>"))),
    }
}

#[test]
fn test_register_and_resolve_success() {
    let mut disp = CommandDispatcher::new(30_000);
    let (tx, rx) = oneshot::channel();
    disp.register(CallId::new(1), tx, 0);
    send_answers(disp.resolve(CallId::new(1), Ok(Value::Null)).into_iter().collect());
    let result = recv_now(rx);
    assert!(result.is_ok(), "expected Ok but got: {:?}", result);
}

#[test]
fn test_register_and_resolve_error() {
    let mut disp = CommandDispatcher::new(30_000);
    let (tx, rx) = oneshot::channel();
    disp.register(CallId::new(2), tx, 0);
    send_answers(disp.resolve(CallId::new(2), Err(CdpError::Timeout)).into_iter().collect());
    let result = recv_now(rx);
    assert!(matches!(result, Err(CdpError::Timeout)));
}

#[test]
fn test_fail_all() {
    let mut disp = CommandDispatcher::new(30_000);
    let (tx1, rx1) = oneshot::channel();
    let (tx2, rx2) = oneshot::channel();
    disp.register(CallId::new(3), tx1, 0);
    disp.register(CallId::new(4), tx2, 0);
    send_answers(disp.fail_all());
    let r1 = recv_now(rx1);
    let r2 = recv_now(rx2);
    assert!(matches!(r1, Err(CdpError::ChannelClosed)));
    assert!(matches!(r2, Err(CdpError::ChannelClosed)));
}

#[test]
fn test_sweep_timeouts_with_zero_duration() {
    let mut disp = CommandDispatcher::new(0);
    let (tx, rx) = oneshot::channel();
    disp.register(CallId::new(5), tx, 100);
    send_answers(disp.sweep_timeouts(100));
    let result = recv_now(rx);
    assert!(matches!(result, Err(CdpError::Timeout)));
}

#[test]
fn sweep_does_not_timeout_future_deadlines() {
    let mut disp = CommandDispatcher::new(60_000);
    let (tx, mut rx) = oneshot::channel();
    disp.register(CallId::new(1), tx, 100);
    send_answers(disp.sweep_timeouts(100));
    assert!(matches!(rx.try_recv(), Ok(None)));
    send_answers(disp.resolve(CallId::new(1), Ok(Value::from(7))).into_iter().collect());
    let v = recv_now(rx).expect("resolve must deliver");
    assert_eq!(v, Value::from(7));
}

#[test]
fn sweep_mixed_deadlines_only_expires_past() {
    let mut fast = CommandDispatcher::new(0);
    let (tx_fast, rx_fast) = oneshot::channel();
    fast.register(CallId::new(1), tx_fast, 5);
    send_answers(fast.sweep_timeouts(5));
    assert!(matches!(recv_now(rx_fast), Err(CdpError::Timeout)));

    let mut slow = CommandDispatcher::new(60_000);
    let (tx_slow, mut rx_slow) = oneshot::channel();
    slow.register(CallId::new(2), tx_slow, 5);
    send_answers(slow.sweep_timeouts(5));
    assert!(matches!(rx_slow.try_recv(), Ok(None)));
}

#[test]
fn resolve_unknown_id_is_noop() {
    let mut disp = CommandDispatcher::new(30_000);
    send_answers(disp.resolve(CallId::new(42), Ok(Value::Null)).into_iter().collect());
}

#[test]
fn resolve_after_receiver_dropped_is_silent() {
    let mut disp = CommandDispatcher::new(30_000);
    let (tx, rx) = oneshot::channel();
    disp.register(CallId::new(9), tx, 0);
    drop(rx);
    send_answers(disp.resolve(CallId::new(9), Ok(Value::Null)).into_iter().collect());
}

#[test]
fn resolve_removes_pending_so_timeout_sweep_is_noop() {
    let mut disp = CommandDispatcher::new(0);
    let (tx, rx) = oneshot::channel();
    disp.register(CallId::new(1), tx, 0);
    send_answers(disp.resolve(CallId::new(1), Ok(Value::Null)).into_iter().collect());
    send_answers(disp.sweep_timeouts(10));
    assert!(recv_now(rx).is_ok());
}

#[test]
fn fail_all_leaves_no_pending() {
    let mut disp = CommandDispatcher::new(30_000);
    let (tx1, _rx1) = oneshot::channel();
    let (tx2, _rx2) = oneshot::channel();
    disp.register(CallId::new(1), tx1, 0);
    disp.register(CallId::new(2), tx2, 0);
    send_answers(disp.fail_all());
    send_answers(disp.sweep_timeouts(0));
    assert_eq!(disp.pending_count(), 0);
}

#[test]
fn resolve_removes_entry_so_sweep_never_sees_it() {
    let mut disp = CommandDispatcher::new(30_000);
    let (tx, rx) = oneshot::channel();
    disp.register(CallId::new(77), tx, 0);
    assert_eq!(disp.pending_count(), 1);
    send_answers(disp.resolve(CallId::new(77), Ok(Value::Null)).into_iter().collect());
    assert_eq!(disp.pending_count(), 0, "resolved entry must be removed immediately");
    recv_now(rx).unwrap();
}

#[test]
fn many_concurrent_registrations_all_resolve() {
    let mut disp = CommandDispatcher::new(30_000);
    let mut rxs = Vec::new();
    for i in 0..128 {
        let (tx, rx) = oneshot::channel();
        disp.register(CallId::new(i), tx, 0);
        rxs.push((i, rx));
    }
    for (i, _) in rxs.iter().rev() {
        send_answers(disp.resolve(CallId::new(*i), Ok(Value::from(*i as u64))).into_iter().collect());
    }
    for (i, rx) in rxs {
        let v = recv_now(rx).expect("ok");
        assert_eq!(v, Value::from(i as u64));
    }
}

#[test]
fn sweep_at_a_later_time_expires_only_old_calls() {
    let mut disp = CommandDispatcher::new(1_000);
    let (tx_old, rx_old) = oneshot::channel();
    let (tx_new, mut rx_new) = oneshot::channel();
    disp.register(CallId::new(1), tx_old, 0);
    disp.register(CallId::new(2), tx_new, 900);
    send_answers(disp.sweep_timeouts(1_000));
    assert!(matches!(recv_now(rx_old), Err(CdpError::Timeout)));
    assert!(matches!(rx_new.try_recv(), Ok(None)));
    assert_eq!(disp.pending_count(), 1);
}

#[test]
fn answers_go_to_the_right_callers() {
    let mut disp = CommandDispatcher::new(1_000);
    let (tx1, _rx1) = oneshot::channel();
    let (tx2, _rx2) = oneshot::channel();
    disp.register(CallId::new(1), tx1, 0);
    disp.register(CallId::new(2), tx2, 900);
    let late = disp.sweep_timeouts(1_500);
    assert_eq!(late.len(), 1);
    assert!(matches!(late[0].1, Err(CdpError::Timeout)));
    assert!(disp.resolve(CallId::new(1), Ok(Value::Null)).is_none());
    let a = disp.resolve(CallId::new(2), Ok(Value::from(3))).expect("call 2 is pending");
    assert_eq!(a.1.as_ref().ok(), Some(&Value::from(3)));
    let (tx3, _rx3) = oneshot::channel();
    disp.register(CallId::new(3), tx3, 0);
    let closed = disp.fail_all();
    assert_eq!(closed.len(), 1);
    assert!(matches!(closed[0].1, Err(CdpError::ChannelClosed)));
}
