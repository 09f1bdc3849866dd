use port_scanner::channel::{Poll, ResultChannel};

#[test]
fn values_come_out_in_send_order() {
    let mut ch = ResultChannel::new();
    ch.clone_sender();
    ch.send(80);
    ch.send(22);
    assert_eq!(ch.poll(), Poll::Value(80));
    assert_eq!(ch.poll(), Poll::Value(22));
    assert_eq!(ch.poll(), Poll::Pending);
}

#[test]
fn closes_only_after_last_release() {
    let mut ch = ResultChannel::new();
    ch.clone_sender();
    ch.clone_sender();
    assert_eq!(ch.live_senders(), 3);
    ch.release();
    assert_eq!(ch.poll(), Poll::Pending);
    ch.send(443);
    ch.release();
    assert_eq!(ch.poll(), Poll::Value(443));
    assert_eq!(ch.poll(), Poll::Pending);
    assert!(!ch.is_closed());
    ch.release();
    assert!(ch.is_closed());
    assert_eq!(ch.poll(), Poll::Closed);
}

#[test]
fn nothing_sent_still_closes() {
    let mut ch = ResultChannel::new();
    ch.clone_sender();
    ch.release();
    ch.release();
    assert_eq!(ch.drain(), Vec::<u16>::new());
    assert_eq!(ch.poll(), Poll::Closed);
}

#[test]
fn drain_returns_queued_values() {
    let mut ch = ResultChannel::new();
    ch.send(9);
    ch.send(3);
    ch.send(5);
    ch.release();
    assert_eq!(ch.drain(), vec![9, 3, 5]);
    assert!(ch.is_closed());
}
