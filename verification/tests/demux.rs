//! Telling protocols apart.

use oxlens_sfu::transport::demux::{classify, PacketType};

#[test]
fn test_classify_stun() {
    assert_eq!(classify(&[0x00, 0x01]), PacketType::Stun);
    assert_eq!(classify(&[0x01, 0x01]), PacketType::Stun);
}

#[test]
fn test_classify_dtls() {
    // DTLS ContentType: handshake=0x16, app_data=0x17
    assert_eq!(classify(&[0x16, 0xFE]), PacketType::Dtls);
    assert_eq!(classify(&[0x17, 0xFE]), PacketType::Dtls);
}

#[test]
fn test_classify_srtp() {
    // RTP version 2: first byte 0x80
    assert_eq!(classify(&[0x80, 0x60]), PacketType::Srtp);
}

#[test]
fn test_classify_empty() {
    assert_eq!(classify(&[]), PacketType::Unknown);
}

#[test]
fn test_classify_unknown() {
    assert_eq!(classify(&[0x50]), PacketType::Unknown);
}
