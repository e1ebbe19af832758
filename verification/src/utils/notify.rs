//! The waiter record and the future state of a [`Notified`](crate::notify::Notified).
use vstd::prelude::*;

verus! {

/// What a [`Notify`](crate::notify::Notify) keeps for one waiting task.
#[derive(Clone, Copy, Debug, PartialEq, Eq)]
pub struct Waiter {
    /// The waker to wake when the task is notified.
    pub waker: Option<u64>,
    /// Set once a notification was delivered to this waiter.
    pub notified: bool,
}

impl Waiter {
    /// A waiter with no waker that has not been notified.
    pub fn new() -> (w: Self)
        ensures
            w.waker is None,
            !w.notified,
    {
        Waiter { waker: None, notified: false }
    }
}

/// The progress of a [`Notified`](crate::notify::Notified) future.
#[derive(Clone, Copy, Debug, PartialEq, Eq, Structural)]
pub enum State {
    /// Not polled yet.
    Init,
    /// Registered in the waiter list.
    Pending,
    /// Completed.
    Done,
}

} // verus!
