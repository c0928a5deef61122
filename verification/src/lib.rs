//! Selective forwarding unit for group calls and push-to-talk rooms.

pub mod agg_logger;
pub mod clock;
pub mod config;
pub mod error;
pub mod laws;
pub mod media;
pub mod metrics;
pub mod random;
pub mod room;
pub mod signaling;
pub mod startup;
pub mod tasks;
pub mod text;
pub mod transport;
pub mod wire;
