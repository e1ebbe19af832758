//! The waiter records and future states of the waiter-list primitives.
pub mod notify;
pub mod semaphore;
pub mod flags;
