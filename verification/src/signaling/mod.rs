//! Signaling: messages, and what the server does on them.

pub mod effect;
pub mod handler;
pub mod message;
pub mod opcode;
pub mod session;
