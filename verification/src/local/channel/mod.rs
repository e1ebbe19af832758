//! Channels for single-threaded contexts.
pub mod oneshot;
