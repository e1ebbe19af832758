//! Channels for sending values between tasks.
pub mod broadcast;
pub mod mpsc;
pub mod oneshot;
