//! Packets and sessions below the signaling layer.

pub mod addr;
pub mod demux;
pub mod dtls;
pub mod ice;
pub mod sdp;
pub mod srtp;
pub mod stun;
pub mod udp;
