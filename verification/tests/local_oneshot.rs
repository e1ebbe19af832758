use asyncsync::local::channel::oneshot::{Inner, State};
use asyncsync::task::Poll;

#[test]
fn local_oneshot_send_then_receive() {
    let mut chan = Inner::new();
    assert!(chan.poll_recv(3).is_pending());
    assert_eq!(chan.send(5u64), Ok(()));
    assert_eq!(chan.close_tx(), Some(3));
    assert_eq!(chan.poll_recv(3), Poll::Ready(Ok(5)));
    assert!(chan.poll_recv(3).is_ready());
}

#[test]
fn local_oneshot_sender_gone() {
    let mut chan = Inner::<u64>::new();
    assert_eq!(chan.close_tx(), None);
    match chan.poll_recv(3) {
        Poll::Ready(r) => assert!(r.is_err()),
        Poll::Pending => panic!("the receiver must see the sender gone"),
    }
}

#[test]
fn local_oneshot_receiver_close() {
    let mut chan = Inner::<u64>::new();
    assert!(!chan.is_rx_closed());
    assert!(chan.poll_closed(8).is_pending());
    assert_eq!(chan.close_rx(), Some(8));
    assert!(chan.is_rx_closed());
    assert!(chan.poll_closed(8).is_ready());
    assert_eq!(chan.send(1), Err(1));
}

#[test]
fn local_oneshot_state_flags() {
    let mut s = State::new();
    assert!(!s.has_value());
    s.set_value(true);
    s.set_tx_closed(true);
    assert!(s.has_value());
    assert!(s.is_tx_closed());
    assert!(!s.is_rx_closed());
    s.set_rx_closed(true);
    s.set_tx_waker_init(true);
    s.set_rx_waker_init(true);
    assert!(s.is_rx_closed() && s.is_tx_waker_init() && s.is_rx_waker_init());
    s.set_value(false);
    assert!(!s.has_value());
    assert!(s.is_tx_closed());
    s.set_tx_closed(false);
    s.set_rx_closed(false);
    s.set_tx_waker_init(false);
    s.set_rx_waker_init(false);
    assert!(!s.is_tx_closed() && !s.is_rx_closed());
    assert!(!s.is_tx_waker_init() && !s.is_rx_waker_init());
}
