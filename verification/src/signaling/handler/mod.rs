//! What the server does on the requests of a client.

pub mod admin;
pub mod floor_ops;
pub mod helpers;
pub mod room_ops;
pub mod track_ops;
