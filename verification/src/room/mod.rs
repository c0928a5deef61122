//! Rooms and what happens in them.

pub mod floor;
pub mod hub;
pub mod index;
pub mod participant;
pub mod ptt_rewriter;
pub mod room;
