use asyncsync::errors::channel::{mpsc, oneshot};

#[test]
fn try_send_error_accessors() {
    let full = mpsc::TrySendError::Full(3);
    let closed = mpsc::TrySendError::Closed(4);
    assert!(full.is_full());
    assert!(!full.is_closed());
    assert!(closed.is_closed());
    assert!(!closed.is_full());
    assert_eq!(full.into_inner(), 3);
    assert_eq!(closed.into_inner(), 4);
}

#[test]
fn error_messages() {
    assert_eq!(mpsc::TrySendError::Full(()).to_string(), "channel full");
    assert_eq!(mpsc::TrySendError::Closed(()).to_string(), "channel closed");
    assert_eq!(mpsc::TryRecvError::Empty.to_string(), "channel empty");
    assert_eq!(mpsc::TryRecvError::Closed.to_string(), "channel closed");
    assert_eq!(mpsc::RecvError::new().to_string(), "channel closed");
    assert_eq!(oneshot::TryRecvError::Empty.to_string(), "channel empty");
    assert_eq!(oneshot::TryRecvError::Closed.to_string(), "channel closed");
    assert_eq!(oneshot::RecvError::new().to_string(), "channel closed");
}

#[test]
fn errors_compare_by_value() {
    assert_eq!(oneshot::RecvError::new(), oneshot::RecvError::new());
    assert_ne!(oneshot::TryRecvError::Empty, oneshot::TryRecvError::Closed);
}
