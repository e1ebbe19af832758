use asyncsync::channel::oneshot::{Inner, TryRecvError};
use asyncsync::task::Poll;

// The sender and the receiver of a channel share one `Inner`: sending consumes the sender,
// so a send is followed by `close_tx`, as is the drop of a sender.

#[test]
fn test_channel() {
    let mut chan = Inner::new();
    assert!(chan.poll_recv(1).is_pending());

    chan.send(()).unwrap();
    chan.close_tx();
    assert_eq!(chan.wake_rx(), Some(1));
    assert_eq!(chan.poll_recv(1), Poll::Ready(Ok(())));
}

#[test]
fn test_channel_drop_tx() {
    let mut chan = Inner::<()>::new();
    assert!(chan.poll_recv(1).is_pending());

    chan.close_tx();
    assert_eq!(chan.wake_rx(), Some(1));
    match chan.poll_recv(1) {
        Poll::Ready(r) => assert!(r.is_err()),
        Poll::Pending => panic!("the receiver must see the sender gone"),
    }
}

#[test]
fn test_channel_close() {
    let mut chan = Inner::<()>::new();

    chan.close_rx();
    chan.send(()).unwrap_err();
}

#[test]
fn test_channel_closed() {
    let mut chan = Inner::<()>::new();
    assert!(chan.poll_closed(4).is_pending());

    chan.close_rx();
    assert_eq!(chan.wake_tx(), Some(4));
    assert_eq!(chan.poll_closed(4), Poll::Ready(()));
}

#[test]
fn test_channel_is_closed() {
    let mut chan = Inner::<()>::new();

    assert!(!chan.is_rx_closed());
    chan.close_rx();
    assert!(chan.is_rx_closed());
}

#[test]
fn test_channel_try_recv() {
    let mut chan = Inner::<()>::new();

    assert_eq!(chan.try_recv().unwrap_err(), TryRecvError::Empty);

    chan.send(()).unwrap();
    chan.close_tx();
    chan.try_recv().unwrap();

    assert_eq!(chan.try_recv().unwrap_err(), TryRecvError::Closed);

    let mut chan = Inner::<()>::new();
    assert_eq!(chan.try_recv().unwrap_err(), TryRecvError::Empty);

    chan.close_tx();
    assert_eq!(chan.try_recv().unwrap_err(), TryRecvError::Closed);
}

#[test]
fn oneshot_send_then_receive_gives_the_value() {
    let mut chan = Inner::new();
    assert_eq!(chan.send(42), Ok(()));
    assert_eq!(chan.try_recv(), Ok(42));
    assert_eq!(chan.try_recv(), Err(TryRecvError::Empty));
}

#[test]
fn oneshot_send_after_receiver_closed_returns_value() {
    let mut chan = Inner::new();
    chan.close_rx();
    assert_eq!(chan.send(42), Err(42));
}

#[test]
fn oneshot_value_survives_receiver_close() {
    let mut chan = Inner::new();
    chan.send(7u32).unwrap();
    chan.close_rx();
    assert_eq!(chan.try_recv(), Ok(7));
}

#[test]
fn oneshot_second_send_is_refused() {
    let mut chan = Inner::new();
    chan.send(1u8).unwrap();
    assert_eq!(chan.send(2u8), Err(2));
    assert_eq!(chan.try_recv(), Ok(1));
}

#[test]
fn oneshot_waker_is_updated() {
    let mut chan = Inner::<u8>::new();
    assert!(chan.poll_recv(1).is_pending());
    assert!(chan.poll_recv(2).is_pending());
    assert_eq!(chan.wake_rx(), Some(2));
    assert_eq!(chan.wake_tx(), None);
}
