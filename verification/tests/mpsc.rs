use asyncsync::channel::mpsc::Inner;
use asyncsync::errors::channel::mpsc::{TryRecvError, TrySendError};
use asyncsync::task::Poll;

#[test]
fn mpsc_zero_capacity_refuses_everything() {
    let mut chan = Inner::new(0);
    assert!(chan.try_send(1u8).unwrap_err().is_full());
}

#[test]
fn mpsc_refused_value_is_handed_back() {
    let mut chan = Inner::new(0);
    assert_eq!(chan.try_send(5u32), Err(TrySendError::Full(5)));
    assert_eq!(chan.try_send(6u32).unwrap_err().into_inner(), 6);
}

#[test]
fn mpsc_empty_then_closed() {
    let mut chan = Inner::<u8>::new(0);
    assert_eq!(chan.try_recv(), Err(TryRecvError::Empty));
    assert!(!chan.is_closed());
    chan.close();
    assert!(chan.is_closed());
    assert_eq!(chan.try_recv(), Err(TryRecvError::Closed));
}

#[test]
fn mpsc_poll_recv_registers_waker() {
    let mut chan = Inner::<u8>::new(0);
    assert_eq!(chan.wake_rx(), None);
    assert_eq!(chan.poll_recv(6), Poll::Pending);
    assert_eq!(chan.wake_rx(), Some(6));
    chan.close();
    assert_eq!(chan.poll_recv(7), Poll::Pending);
    assert_eq!(chan.wake_rx(), Some(7));
}
