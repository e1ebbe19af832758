//! Errors of the one-shot channels.
use vstd::prelude::*;

verus! {

/// The sender was dropped without sending a value.
#[derive(Copy, Clone, Debug, PartialEq, Eq, Hash)]
pub struct RecvError {
    _priv: (),
}

impl RecvError {
    /// Creates the error.
    pub fn new() -> (e: Self) {
        Self { _priv: () }
    }

    /// The error message.
    pub fn to_string(&self) -> (s: String)
        ensures
            s@ == "channel closed"@,
    {
        String::from_str("channel closed")
    }
}

/// Why [`try_recv`](crate::channel::oneshot::Inner::try_recv) returned no value.
#[derive(Copy, Clone, Debug, PartialEq, Eq, Hash, Structural)]
pub enum TryRecvError {
    /// The channel holds no value yet.
    Empty,
    /// The channel holds no value and the sender is gone.
    Closed,
}

impl TryRecvError {
    /// The error message.
    pub fn to_string(&self) -> (s: String)
        ensures
            s@ == (match self {
                TryRecvError::Empty => "channel empty"@,
                TryRecvError::Closed => "channel closed"@,
            }),
    {
        match self {
            TryRecvError::Empty => String::from_str("channel empty"),
            TryRecvError::Closed => String::from_str("channel closed"),
        }
    }
}

} // verus!
