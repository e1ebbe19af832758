//! The waiter record and the future state of an [`Acquire`](crate::semaphore::Acquire).
use vstd::prelude::*;

verus! {

/// What a [`Semaphore`](crate::semaphore::Semaphore) keeps for one waiting acquisition.
#[derive(Clone, Copy, Debug, PartialEq, Eq)]
pub struct Waiter {
    /// The waker to wake when enough permits are available.
    pub waker: Option<u64>,
    /// The number of permits requested.
    pub permits: usize,
}

impl Waiter {
    /// A waiter for `permits` permits, with no waker yet.
    pub fn new(permits: usize) -> (w: Self)
        ensures
            w.waker is None,
            w.permits == permits,
    {
        Waiter { waker: None, permits }
    }
}

/// The progress of an [`Acquire`](crate::semaphore::Acquire) future.
#[derive(Clone, Copy, Debug, PartialEq, Eq, Structural)]
pub enum State {
    /// Not registered yet, requesting this many permits.
    Init(usize),
    /// Registered in the waiter list, waiting for this many permits.
    Waiting(usize),
    /// Completed.
    Done,
}

} // verus!
