//! Error types of the channels.
pub mod channel;
