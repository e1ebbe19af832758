//! Error types of the channels, one module per channel kind.
pub mod mpsc;
pub mod oneshot;
