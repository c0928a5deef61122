//! Media over UDP.

pub mod binding;
pub mod egress;
pub mod fanout;
pub mod feedback;
pub mod ingress;
pub mod mbcp;
pub mod nack;
pub mod rtcp;
pub mod rtcp_terminator;
