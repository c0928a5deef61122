//! What the operations are for, stated of what goes in and what comes out.

pub mod description;
pub mod forwarding;
pub mod handling;
pub mod lookup;
pub mod membership;
pub mod metering;
pub mod packets;
pub mod relay;
pub mod reports;
pub mod retransmission;
pub mod stream;
pub mod talk;
pub mod tracks;
pub mod turns;
pub mod wording;
