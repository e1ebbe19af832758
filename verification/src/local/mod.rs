//! Synchronization primitives for single-threaded contexts.
//!
//! In this crate every primitive is a plain value that its owner drives, so the
//! single-threaded `Notify` is the same type as the shared one; the one-shot channel of
//! this module keeps its own state layout.
pub mod channel;

pub use crate::notify::{Notified, Notify};
