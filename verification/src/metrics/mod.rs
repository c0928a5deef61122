//! What the server counts and measures. The figures are taken out every few
//! seconds and start again at nothing.

pub mod pipeline;
pub mod runtime;
pub mod stats;
