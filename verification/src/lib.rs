//! Runtime-independent synchronization primitives for asynchronous Rust, written as
//! verified state machines.
//!
//! Every primitive is a plain value whose operations take the event that drives them (a
//! poll with the current task's waker, a notification, a release of permits) and return
//! what must happen next: the value handed out, and the wakers to wake. Wakers are named by
//! a `u64` that the caller chooses; see [`task`].
pub mod channel;
pub mod errors;
pub mod linked_list;
pub mod local;
pub mod notify;
pub mod semaphore;
pub mod task;
pub mod utils;

pub use notify::{Notified, Notify};
pub use semaphore::{Acquire, Permit, Semaphore};
