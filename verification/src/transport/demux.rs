//! Tells the protocols apart that share the one port (RFC 5764): the first byte
//! of a datagram decides.

use vstd::prelude::*;

use crate::config;

verus! {

#[derive(Debug, Clone, Copy, PartialEq, Eq, Structural)]
pub enum PacketType {
    Stun,
    Dtls,
    Srtp,
    Unknown,
}

/// What a datagram is.
pub open spec fn packet_type(buf: Seq<u8>) -> PacketType {
    if buf.len() == 0 {
        PacketType::Unknown
    } else if config::DEMUX_STUN_MIN <= buf[0] <= config::DEMUX_STUN_MAX {
        PacketType::Stun
    } else if config::DEMUX_DTLS_MIN <= buf[0] <= config::DEMUX_DTLS_MAX {
        PacketType::Dtls
    } else if config::DEMUX_RTP_MIN <= buf[0] <= config::DEMUX_RTP_MAX {
        PacketType::Srtp
    } else {
        PacketType::Unknown
    }
}

pub fn classify(buf: &[u8]) -> (r: PacketType)
    ensures
        r == packet_type(buf@),
{
    if buf.len() == 0 {
        return PacketType::Unknown;
    }
    let first: u8 = buf[0];
    if config::DEMUX_STUN_MIN <= first && first <= config::DEMUX_STUN_MAX {
        PacketType::Stun
    } else if config::DEMUX_DTLS_MIN <= first && first <= config::DEMUX_DTLS_MAX {
        PacketType::Dtls
    } else if config::DEMUX_RTP_MIN <= first && first <= config::DEMUX_RTP_MAX {
        PacketType::Srtp
    } else {
        PacketType::Unknown
    }
}

} // verus!
