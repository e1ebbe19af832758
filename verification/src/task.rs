//! The vocabulary shared by every primitive: a poll outcome and waker identities.
//!
//! A waker is named by a `u64` that the caller assigns; two wakers that would wake the same
//! task carry the same number. Operations never wake anything themselves: they return the
//! numbers of the wakers that the caller must wake.
use vstd::prelude::*;

verus! {

/// The outcome of polling one of the futures of this crate.
#[derive(Debug, PartialEq, Eq)]
pub enum Poll<T> {
    /// The future has completed with this value.
    Ready(T),
    /// The future is not ready; its waker has been registered.
    Pending,
}

impl<T> Poll<T> {
    /// Returns `true` if the poll completed.
    pub fn is_ready(&self) -> (b: bool)
        ensures
            b == (*self is Ready),
    {
        match self {
            Poll::Ready(_) => true,
            Poll::Pending => false,
        }
    }

    /// Returns `true` if the poll did not complete.
    pub fn is_pending(&self) -> (b: bool)
        ensures
            b == (*self is Pending),
    {
        match self {
            Poll::Ready(_) => false,
            Poll::Pending => true,
        }
    }
}

} // verus!
