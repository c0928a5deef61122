//! RTCP packets.

use oxlens_sfu::config;
use oxlens_sfu::transport::udp::rtcp::{build_mbcp_app, parse_mbcp_app, split_compound_rtcp};

#[test]
fn test_build_parse_freq() {
    let pkt = build_mbcp_app(config::MBCP_SUBTYPE_FREQ, 0x12345678, None);
    assert_eq!(pkt.len(), 12); // no data
    let msg = parse_mbcp_app(&pkt).unwrap();
    assert_eq!(msg.subtype, config::MBCP_SUBTYPE_FREQ);
    assert_eq!(msg.ssrc, 0x12345678);
    assert!(msg.data.is_none());
}

#[test]
fn test_build_parse_ftkn_with_data() {
    let pkt = build_mbcp_app(config::MBCP_SUBTYPE_FTKN, 0, Some("user_42"));
    assert_eq!(pkt.len(), 20);
    let msg = parse_mbcp_app(&pkt).unwrap();
    assert_eq!(msg.subtype, config::MBCP_SUBTYPE_FTKN);
    assert_eq!(msg.data.as_deref(), Some("user_42"));
}

#[test]
fn test_build_parse_frel() {
    let pkt = build_mbcp_app(config::MBCP_SUBTYPE_FREL, 0xAABBCCDD, None);
    assert_eq!(pkt.len(), 12);
    let msg = parse_mbcp_app(&pkt).unwrap();
    assert_eq!(msg.subtype, config::MBCP_SUBTYPE_FREL);
    assert_eq!(msg.ssrc, 0xAABBCCDD);
}

#[test]
fn test_build_parse_frvk_with_cause() {
    let pkt = build_mbcp_app(config::MBCP_SUBTYPE_FRVK, 0, Some("max burst exceeded"));
    let msg = parse_mbcp_app(&pkt).unwrap();
    assert_eq!(msg.subtype, config::MBCP_SUBTYPE_FRVK);
    assert_eq!(msg.data.as_deref(), Some("max burst exceeded"));
}

#[test]
fn test_reject_non_mbcp_app() {
    let mut pkt = build_mbcp_app(config::MBCP_SUBTYPE_FREQ, 0, None);
    pkt[8..12].copy_from_slice(b"XXXX");
    assert!(parse_mbcp_app(&pkt).is_none());
}

#[test]
fn test_split_compound_with_mbcp() {
    let freq = build_mbcp_app(config::MBCP_SUBTYPE_FREQ, 0x11111111, None);
    let parsed = split_compound_rtcp(&freq);
    assert_eq!(parsed.mbcp_blocks.len(), 1);
    assert_eq!(parsed.mbcp_blocks[0].subtype, config::MBCP_SUBTYPE_FREQ);
    assert_eq!(parsed.mbcp_blocks[0].ssrc, 0x11111111);
    assert!(parsed.nack_blocks.is_empty());
    assert!(parsed.relay_blocks.is_empty());
}

#[test]
fn test_4byte_alignment() {
    let pkt = build_mbcp_app(config::MBCP_SUBTYPE_FTKN, 0, Some("A"));
    assert_eq!(pkt.len(), 16); // 12 + 4
    let msg = parse_mbcp_app(&pkt).unwrap();
    assert_eq!(msg.data.as_deref(), Some("A"));

    let pkt = build_mbcp_app(config::MBCP_SUBTYPE_FTKN, 0, Some("ABCD"));
    assert_eq!(pkt.len(), 16); // 12 + 4
    let msg = parse_mbcp_app(&pkt).unwrap();
    assert_eq!(msg.data.as_deref(), Some("ABCD"));

    let pkt = build_mbcp_app(config::MBCP_SUBTYPE_FTKN, 0, Some("ABCDE"));
    assert_eq!(pkt.len(), 20); // 12 + 8
    let msg = parse_mbcp_app(&pkt).unwrap();
    assert_eq!(msg.data.as_deref(), Some("ABCDE"));
}
