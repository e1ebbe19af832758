//! Errors of the multi-producer channel.
use vstd::prelude::*;

verus! {

/// Why [`try_send`](crate::channel::mpsc::Inner::try_send) did not send; the value is handed
/// back.
#[derive(Copy, Clone, Debug, PartialEq, Eq, Hash)]
pub enum TrySendError<T> {
    /// The buffer is full.
    Full(T),
    /// The channel is closed.
    Closed(T),
}

impl<T> TrySendError<T> {
    /// Returns `true` for [`TrySendError::Full`].
    pub fn is_full(&self) -> (b: bool)
        ensures
            b == (*self is Full),
    {
        match self {
            TrySendError::Full(_) => true,
            TrySendError::Closed(_) => false,
        }
    }

    /// Returns `true` for [`TrySendError::Closed`].
    pub fn is_closed(&self) -> (b: bool)
        ensures
            b == (*self is Closed),
    {
        match self {
            TrySendError::Full(_) => false,
            TrySendError::Closed(_) => true,
        }
    }

    /// Returns the value that could not be sent.
    pub fn into_inner(self) -> (v: T)
        ensures
            v == (match self {
                TrySendError::Full(x) => x,
                TrySendError::Closed(x) => x,
            }),
    {
        match self {
            TrySendError::Full(val) => val,
            TrySendError::Closed(val) => val,
        }
    }

    /// The error message.
    pub fn to_string(&self) -> (s: String)
        ensures
            s@ == (match self {
                TrySendError::Full(_) => "channel full"@,
                TrySendError::Closed(_) => "channel closed"@,
            }),
    {
        match self {
            TrySendError::Full(_) => String::from_str("channel full"),
            TrySendError::Closed(_) => String::from_str("channel closed"),
        }
    }
}

/// The channel is closed and empty.
#[derive(Copy, Clone, Debug, PartialEq, Eq, Hash)]
pub struct RecvError {
    _priv: (),
}

impl RecvError {
    /// Creates the error.
    pub fn new() -> (e: Self) {
        Self { _priv: () }
    }

    /// The error message.
    pub fn to_string(&self) -> (s: String)
        ensures
            s@ == "channel closed"@,
    {
        String::from_str("channel closed")
    }
}

/// Why [`try_recv`](crate::channel::mpsc::Inner::try_recv) returned no value.
#[derive(Copy, Clone, Debug, PartialEq, Eq, Hash, Structural)]
pub enum TryRecvError {
    /// The channel holds no value.
    Empty,
    /// The channel holds no value and is closed.
    Closed,
}

impl TryRecvError {
    /// The error message.
    pub fn to_string(&self) -> (s: String)
        ensures
            s@ == (match self {
                TryRecvError::Empty => "channel empty"@,
                TryRecvError::Closed => "channel closed"@,
            }),
    {
        match self {
            TryRecvError::Empty => String::from_str("channel empty"),
            TryRecvError::Closed => String::from_str("channel closed"),
        }
    }
}

} // verus!
